//! The lattice Boltzmann engine: one simulation step is a collision pass
//! followed by a streaming pass.
//!
//! The collision operator (the BGK relaxation towards local equilibrium)
//! is floating-point physics; the engine takes it as a function from a
//! cell's distribution values to its relaxed values and macroscopic
//! moments, and applies it to every fluid cell. Streaming moves values
//! between slots and is carried out and proved here in full.
pub mod constants;
pub mod flags;
pub mod grid;
pub mod stream;
pub mod symmetry;

use vstd::prelude::*;
use crate::lbm::constants::{Q, C_X, C_Y, OPPOSITE, cx, cy, opp, lemma_opposite_involution, lemma_unit_velocities};
use crate::lbm::flags::flag_cells;
use crate::lbm::grid::{LatticeGrid, cell_at, slot_at, shape_fits, lemma_slot_in_range, lemma_cell_injective};
use crate::lbm::stream::{
    wrap, pull_source, pull_slot, streamed, slot_x, slot_y, slot_dir, lemma_streaming_keeps_values,
    lemma_streaming_keeps_indexed_total, lemma_slot_decompose, lemma_slot_compose, lemma_pull_push_inverse,
    lemma_wrap_round_trip, upstream,
};
use vstd::arithmetic::div_mod::lemma_fundamental_div_mod_converse;
use crate::permutation::{total, weighted, indexed_total, lemma_total_concat, lemma_indexed_total_plain};

verus! {

/// What the collision operator makes of one cell: its relaxed distribution
/// values and its macroscopic density and velocity.
pub struct Collision<T> {
    pub f: [T; Q],
    pub rho: T,
    pub ux: T,
    pub uy: T,
}

/// The state of a simulation: the lattice and its relaxation time.
pub struct LbmEngine<T> {
    pub grid: LatticeGrid<T>,
    /// Kinematic viscosity relaxation time.
    pub tau: T,
}

/// One step against a unit velocity component `c` from coordinate `v` on a
/// periodic axis of length `n`.
pub fn wrap_step(v: usize, c: i32, n: usize) -> (r: usize)
    requires
        v < n,
        -1 <= c <= 1,
    ensures
        r == wrap(v - c, n as int),
        r < n,
{
    if c == 1 {
        if v == 0 { n - 1 } else { v - 1 }
    } else if c == -1 {
        if v + 1 == n { 0 } else { v + 1 }
    } else {
        v
    }
}

/// The macroscopic values of cell `c` and the distribution values of its
/// slots are the same in `a` and `b`.
pub open spec fn same_cell<T>(a: LatticeGrid<T>, b: LatticeGrid<T>, c: int) -> bool {
    &&& forall|i: int| 0 <= i < Q ==> #[trigger] a.f@[c * Q + i] == b.f@[c * Q + i]
    &&& a.rho@[c] == b.rho@[c]
    &&& a.ux@[c] == b.ux@[c]
    &&& a.uy@[c] == b.uy@[c]
}

/// Cell `(x, y)` of `after` is what one collision of `collide` made of the
/// same cell of `before`: a wall cell is left as it was; a fluid cell holds
/// an outcome of `collide` applied to its distribution values.
pub open spec fn cell_collided<T, F: Fn([T; Q]) -> Collision<T>>(
    before: LatticeGrid<T>,
    after: LatticeGrid<T>,
    collide: F,
    x: int,
    y: int,
) -> bool {
    let c = cell_at(before.height as int, x, y);
    if before.solid_at(x, y) {
        same_cell(before, after, c)
    } else {
        exists|inp: [T; Q], out: Collision<T>|
            {
                &&& #[trigger] collide.ensures((inp,), out)
                &&& forall|i: int| 0 <= i < Q ==> #[trigger] inp@[i] == before.f@[c * Q + i]
                &&& forall|i: int| 0 <= i < Q ==> #[trigger] after.f@[c * Q + i] == out.f@[i]
                &&& after.rho@[c] == out.rho
                &&& after.ux@[c] == out.ux
                &&& after.uy@[c] == out.uy
            }
    }
}

/// `after` is `before` after a collision pass with `collide`: every cell
/// collided, and the shape, the walls, the next-step buffer and the dye are
/// untouched.
pub open spec fn collided<T, F: Fn([T; Q]) -> Collision<T>>(
    before: LatticeGrid<T>,
    after: LatticeGrid<T>,
    collide: F,
) -> bool {
    &&& after.wf()
    &&& after.width == before.width
    &&& after.height == before.height
    &&& flag_cells(after.solid) == flag_cells(before.solid)
    &&& after.f_new == before.f_new
    &&& after.dye == before.dye
    &&& forall|x: int, y: int|
        0 <= x < before.width && 0 <= y < before.height ==> #[trigger] cell_collided(
            before,
            after,
            collide,
            x,
            y,
        )
}

/// `after` is `before` after a streaming pass: the distribution values
/// moved as `streamed` says, the next-step buffer holds the values before
/// the move, and nothing else changed.
pub open spec fn stream_step<T>(before: LatticeGrid<T>, after: LatticeGrid<T>) -> bool {
    &&& after.wf()
    &&& after.width == before.width
    &&& after.height == before.height
    &&& flag_cells(after.solid) == flag_cells(before.solid)
    &&& streamed(flag_cells(before.solid), before.width as int, before.height as int, before.f@, after.f@)
    &&& after.f_new@ == before.f@
    &&& after.rho == before.rho
    &&& after.ux == before.ux
    &&& after.uy == before.uy
    &&& after.dye == before.dye
}

/// A collision seen between two grids is seen between any two grids that
/// agree with them on that cell and on whether it is a wall.
proof fn lemma_cell_collided_frame<T, F: Fn([T; Q]) -> Collision<T>>(
    b1: LatticeGrid<T>,
    a1: LatticeGrid<T>,
    b2: LatticeGrid<T>,
    a2: LatticeGrid<T>,
    collide: F,
    x: int,
    y: int,
)
    requires
        cell_collided(b1, a1, collide, x, y),
        b1.height == b2.height,
        flag_cells(b1.solid) == flag_cells(b2.solid),
        same_cell(b2, b1, cell_at(b1.height as int, x, y)),
        same_cell(a1, a2, cell_at(b1.height as int, x, y)),
    ensures
        cell_collided(b2, a2, collide, x, y),
{
    let c = cell_at(b1.height as int, x, y);
    if b1.solid_at(x, y) {
        assert forall|i: int| 0 <= i < Q implies #[trigger] b2.f@[c * Q + i] == a2.f@[c * Q + i] by {
            assert(b2.f@[c * Q + i] == b1.f@[c * Q + i] && a1.f@[c * Q + i] == a2.f@[c * Q + i]);
        }
    } else {
        let (inp, out) = choose|inp: [T; Q], out: Collision<T>|
            {
                &&& #[trigger] collide.ensures((inp,), out)
                &&& forall|i: int| 0 <= i < Q ==> #[trigger] inp@[i] == b1.f@[c * Q + i]
                &&& forall|i: int| 0 <= i < Q ==> #[trigger] a1.f@[c * Q + i] == out.f@[i]
                &&& a1.rho@[c] == out.rho
                &&& a1.ux@[c] == out.ux
                &&& a1.uy@[c] == out.uy
            };
        assert forall|i: int| 0 <= i < Q implies #[trigger] a2.f@[c * Q + i] == out.f@[i] by {
            assert(a1.f@[c * Q + i] == a2.f@[c * Q + i]);
        }
        assert forall|i: int| 0 <= i < Q implies #[trigger] inp@[i] == b2.f@[c * Q + i] by {
            assert(b2.f@[c * Q + i] == b1.f@[c * Q + i]);
        }
        assert({
            &&& collide.ensures((inp,), out)
            &&& forall|i: int| 0 <= i < Q ==> #[trigger] inp@[i] == b2.f@[c * Q + i]
            &&& forall|i: int| 0 <= i < Q ==> #[trigger] a2.f@[c * Q + i] == out.f@[i]
            &&& a2.rho@[c] == out.rho
            &&& a2.ux@[c] == out.ux
            &&& a2.uy@[c] == out.uy
        });
    }
}

/// `after` is `before` after one simulation step with `collide`: a
/// collision pass, then a streaming pass.
pub open spec fn ticked<T, F: Fn([T; Q]) -> Collision<T>>(
    before: LatticeGrid<T>,
    after: LatticeGrid<T>,
    collide: F,
) -> bool {
    exists|mid: LatticeGrid<T>| collided(before, mid, collide) && #[trigger] stream_step(mid, after)
}

/// `a` and `b` differ at most in their next-step buffer, and that buffer
/// has the same length in both.
pub open spec fn same_but_f_new<T>(a: LatticeGrid<T>, b: LatticeGrid<T>) -> bool {
    &&& a.width == b.width
    &&& a.height == b.height
    &&& a.f == b.f
    &&& a.f_new.len() == b.f_new.len()
    &&& a.rho == b.rho
    &&& a.ux == b.ux
    &&& a.uy == b.uy
    &&& a.dye == b.dye
    &&& flag_cells(a.solid) == flag_cells(b.solid)
}

impl<T: Copy> LatticeGrid<T> {
    /// Fills the next-step values of cell `(x, y)` by pulling them from
    /// their sources; no other next-step value changes.
    fn pull_cell(&mut self, x: usize, y: usize)
        requires
            old(self).wf(),
            x < old(self).width,
            y < old(self).height,
        ensures
            final(self).wf(),
            same_but_f_new(*old(self), *final(self)),
            forall|j: int| 0 <= j < Q ==> {
                let s = pull_source(flag_cells(old(self).solid), old(self).width as int, old(self).height as int, x as int, y as int, j);
                #[trigger] final(self).f_new@[slot_at(old(self).height as int, x as int, y as int, j)]
                    == old(self).f@[slot_at(old(self).height as int, s.0, s.1, s.2)]
            },
            forall|k: int| 0 <= k < final(self).f_new.len() && !(slot_at(old(self).height as int, x as int, y as int, 0) <= k < slot_at(old(self).height as int, x as int, y as int, 0) + Q)
                ==> #[trigger] final(self).f_new@[k] == old(self).f_new@[k],
    {
        let ghost g0 = *self;
        let ghost solid = flag_cells(self.solid);
        let width = self.width;
        let height = self.height;
        let b = self.slot_index(x, y, 0);
        proof {
            lemma_slot_in_range(width as int, height as int, x as int, y as int, Q - 1);
        }
        if self.is_solid(x, y) {
            let mut i: usize = 0;
            while i < Q
                invariant
                    self.wf(),
                    same_but_f_new(g0, *self),
                    b == slot_at(height as int, x as int, y as int, 0),
                    b + Q <= self.f_new.len(),
                    0 <= i <= Q,
                    forall|k: int| 0 <= k < i ==> #[trigger] self.f_new@[b + opp(k)] == g0.f@[b + k],
                    forall|k: int| 0 <= k < self.f_new.len() && !(b <= k < b + Q) ==> #[trigger] self.f_new@[k] == g0.f_new@[k],
                decreases Q - i,
            {
                proof {
                    lemma_opposite_involution(i as int);
                }
                let v = self.f[b + i];
                self.f_new.set(b + OPPOSITE[i], v);
                proof {
                    assert forall|k: int| 0 <= k < i + 1 implies #[trigger] self.f_new@[b + opp(k)] == g0.f@[b + k] by {
                        lemma_opposite_involution(k);
                        if k < i {
                            lemma_opposite_involution(i as int);
                            assert(opp(k) != opp(i as int)) by {
                                assert(opp(opp(k)) == k);
                            }
                        }
                    }
                }
                i += 1;
            }
            proof {
                assert forall|j: int| 0 <= j < Q implies {
                    let s = pull_source(solid, width as int, height as int, x as int, y as int, j);
                    #[trigger] self.f_new@[slot_at(height as int, x as int, y as int, j)]
                        == g0.f@[slot_at(height as int, s.0, s.1, s.2)]
                } by {
                    lemma_opposite_involution(j);
                    assert(self.f_new@[b + opp(opp(j))] == g0.f@[b + opp(j)]);
                }
            }
        } else {
            let mut i: usize = 0;
            while i < Q
                invariant
                    self.wf(),
                    same_but_f_new(g0, *self),
                    solid == flag_cells(self.solid),
                    !solid[(x as int, y as int)],
                    width == self.width,
                    height == self.height,
                    x < width,
                    y < height,
                    b == slot_at(height as int, x as int, y as int, 0),
                    b + Q <= self.f_new.len(),
                    0 <= i <= Q,
                    forall|k: int| 0 <= k < i ==> {
                        let s = pull_source(solid, width as int, height as int, x as int, y as int, k);
                        #[trigger] self.f_new@[b + k] == g0.f@[slot_at(height as int, s.0, s.1, s.2)]
                    },
                    forall|k: int| 0 <= k < self.f_new.len() && !(b <= k < b + Q) ==> #[trigger] self.f_new@[k] == g0.f_new@[k],
                decreases Q - i,
            {
                proof {
                    lemma_unit_velocities(i as int);
                    lemma_opposite_involution(i as int);
                }
                let sx = wrap_step(x, C_X[i], width);
                let sy = wrap_step(y, C_Y[i], height);
                let v = if self.is_solid(sx, sy) {
                    self.f[b + OPPOSITE[i]]
                } else {
                    let k = self.slot_index(sx, sy, i);
                    self.f[k]
                };
                self.f_new.set(b + i, v);
                i += 1;
            }
        }
    }
}

/// `a` and `b` differ at most in the distribution values and macroscopic
/// values of cell `c`.
pub open spec fn same_but_cell<T>(a: LatticeGrid<T>, b: LatticeGrid<T>, c: int) -> bool {
    &&& a.width == b.width
    &&& a.height == b.height
    &&& a.f_new == b.f_new
    &&& a.dye == b.dye
    &&& flag_cells(a.solid) == flag_cells(b.solid)
    &&& a.f.len() == b.f.len()
    &&& a.rho.len() == b.rho.len()
    &&& a.ux.len() == b.ux.len()
    &&& a.uy.len() == b.uy.len()
    &&& forall|k: int| 0 <= k < a.f.len() && !(c * Q <= k < c * Q + Q) ==> #[trigger] b.f@[k] == a.f@[k]
    &&& forall|d: int| 0 <= d < a.rho.len() && d != c ==> #[trigger] b.rho@[d] == a.rho@[d]
    &&& forall|d: int| 0 <= d < a.ux.len() && d != c ==> #[trigger] b.ux@[d] == a.ux@[d]
    &&& forall|d: int| 0 <= d < a.uy.len() && d != c ==> #[trigger] b.uy@[d] == a.uy@[d]
}

impl<T: Copy> LatticeGrid<T> {
    /// Applies the collision operator to cell `(x, y)` unless it is a wall.
    fn collide_cell<F: Fn([T; Q]) -> Collision<T>>(&mut self, x: usize, y: usize, collide: &F)
        requires
            old(self).wf(),
            x < old(self).width,
            y < old(self).height,
            forall|lane: [T; Q]| #[trigger] collide.requires((lane,)),
        ensures
            final(self).wf(),
            same_but_cell(*old(self), *final(self), cell_at(old(self).height as int, x as int, y as int)),
            cell_collided(*old(self), *final(self), *collide, x as int, y as int),
    {
        let ghost g0 = *self;
        let c = self.cell_index(x, y);
        let b = self.slot_index(x, y, 0);
        proof {
            lemma_slot_in_range(self.width as int, self.height as int, x as int, y as int, Q - 1);
        }
        if !self.is_solid(x, y) {
            let lane: [T; Q] = [
                self.f[b],
                self.f[b + 1],
                self.f[b + 2],
                self.f[b + 3],
                self.f[b + 4],
                self.f[b + 5],
                self.f[b + 6],
                self.f[b + 7],
                self.f[b + 8],
            ];
            assert(lane@ =~= g0.f@.subrange(b as int, b + Q));
            let out = collide(lane);
            let mut i: usize = 0;
            while i < Q
                invariant
                    self.wf(),
                    same_but_cell(g0, *self, c as int),
                    b == c * Q,
                    c < self.rho.len(),
                    b + Q <= self.f.len(),
                    0 <= i <= Q,
                    forall|k: int| 0 <= k < i ==> #[trigger] self.f@[b + k] == out.f@[k],
                decreases Q - i,
            {
                self.f.set(b + i, out.f[i]);
                i += 1;
            }
            self.rho.set(c, out.rho);
            self.ux.set(c, out.ux);
            self.uy.set(c, out.uy);
            proof {
                assert forall|i: int| 0 <= i < Q implies #[trigger] lane@[i] == g0.f@[c * Q + i] by {
                    assert(lane@[i] == g0.f@.subrange(b as int, b + Q)[i]);
                }
                assert forall|i: int| 0 <= i < Q implies #[trigger] self.f@[c * Q + i] == out.f@[i] by {
                    assert(self.f@[b + i] == out.f@[i]);
                }
            }
        } else {
            assert(same_cell(g0, *self, c as int));
        }
    }
}

impl<T: Copy> LbmEngine<T> {
    /// The engine's lattice has consistent array lengths.
    pub open spec fn wf(&self) -> bool {
        self.grid.wf()
    }

    /// The streaming pass (pull method), then the swap of the two buffers:
    /// each fluid cell pulls each direction from its upstream neighbour, or
    /// from its own opposite direction where that neighbour is a wall; a
    /// wall cell reverses all its directions. Afterwards the next-step
    /// buffer holds the values from before the pass.
    pub fn stream(&mut self)
        requires
            old(self).wf(),
        ensures
            final(self).wf(),
            stream_step(old(self).grid, final(self).grid),
            final(self).tau == old(self).tau,
    {
        let ghost g0 = self.grid;
        let ghost solid = flag_cells(self.grid.solid);
        let width = self.grid.width;
        let height = self.grid.height;
        let mut x: usize = 0;
        while x < width
            invariant
                self.grid.wf(),
                same_but_f_new(g0, self.grid),
                width == g0.width,
                height == g0.height,
                solid == flag_cells(g0.solid),
                self.tau == old(self).tau,
                g0 == old(self).grid,
                0 <= x <= width,
                forall|x2: int, y2: int, j: int|
                    0 <= x2 < x && 0 <= y2 < height && 0 <= j < Q ==> {
                        let s = pull_source(solid, width as int, height as int, x2, y2, j);
                        #[trigger] self.grid.f_new@[slot_at(height as int, x2, y2, j)]
                            == g0.f@[slot_at(height as int, s.0, s.1, s.2)]
                    },
            decreases width - x,
        {
            let mut y: usize = 0;
            while y < height
                invariant
                    self.grid.wf(),
                    same_but_f_new(g0, self.grid),
                    width == g0.width,
                    height == g0.height,
                    solid == flag_cells(g0.solid),
                    self.tau == old(self).tau,
                    g0 == old(self).grid,
                    x < width,
                    0 <= y <= height,
                    forall|x2: int, y2: int, j: int|
                        0 <= x2 < width && 0 <= y2 < height && 0 <= j < Q && (x2 < x || (x2 == x && y2 < y)) ==> {
                            let s = pull_source(solid, width as int, height as int, x2, y2, j);
                            #[trigger] self.grid.f_new@[slot_at(height as int, x2, y2, j)]
                                == g0.f@[slot_at(height as int, s.0, s.1, s.2)]
                        },
                decreases height - y,
            {
                let ghost before = self.grid;
                self.grid.pull_cell(x, y);
                proof {
                    assert forall|x2: int, y2: int, j: int|
                        0 <= x2 < width && 0 <= y2 < height && 0 <= j < Q && (x2 < x || (x2 == x && y2 < y + 1)) implies {
                            let s = pull_source(solid, width as int, height as int, x2, y2, j);
                            #[trigger] self.grid.f_new@[slot_at(height as int, x2, y2, j)]
                                == g0.f@[slot_at(height as int, s.0, s.1, s.2)]
                        } by {
                        if x2 != x || y2 != y {
                            lemma_slot_in_range(width as int, height as int, x2, y2, j);
                            if cell_at(height as int, x2, y2) == cell_at(height as int, x as int, y as int) {
                                lemma_cell_injective(height as int, x2, y2, x as int, y as int);
                            }
                            assert(!(slot_at(height as int, x as int, y as int, 0) <= slot_at(height as int, x2, y2, j)
                                < slot_at(height as int, x as int, y as int, 0) + Q));
                        }
                    }
                }
                y += 1;
            }
            x += 1;
        }
        std::mem::swap(&mut self.grid.f, &mut self.grid.f_new);
    }

    /// The collision pass: every fluid cell is replaced by an outcome of
    /// `collide` on its distribution values, which also gives its density
    /// and velocity; wall cells do not take part.
    pub fn collide<F: Fn([T; Q]) -> Collision<T>>(&mut self, collide: &F)
        requires
            old(self).wf(),
            forall|lane: [T; Q]| #[trigger] collide.requires((lane,)),
        ensures
            final(self).wf(),
            collided(old(self).grid, final(self).grid, *collide),
            final(self).tau == old(self).tau,
    {
        let ghost g0 = self.grid;
        let width = self.grid.width;
        let height = self.grid.height;
        let mut x: usize = 0;
        while x < width
            invariant
                self.grid.wf(),
                g0 == old(self).grid,
                self.tau == old(self).tau,
                forall|lane: [T; Q]| #[trigger] collide.requires((lane,)),
                width == g0.width,
                height == g0.height,
                self.grid.width == width,
                self.grid.height == height,
                self.grid.f_new == g0.f_new,
                self.grid.dye == g0.dye,
                flag_cells(self.grid.solid) == flag_cells(g0.solid),
                0 <= x <= width,
                forall|x2: int, y2: int| 0 <= x2 < x && 0 <= y2 < height
                    ==> #[trigger] cell_collided(g0, self.grid, *collide, x2, y2),
                forall|x2: int, y2: int| x <= x2 < width && 0 <= y2 < height
                    ==> #[trigger] same_cell(g0, self.grid, cell_at(height as int, x2, y2)),
            decreases width - x,
        {
            let mut y: usize = 0;
            while y < height
                invariant
                    self.grid.wf(),
                    g0 == old(self).grid,
                    self.tau == old(self).tau,
                    forall|lane: [T; Q]| #[trigger] collide.requires((lane,)),
                    width == g0.width,
                    height == g0.height,
                    self.grid.width == width,
                    self.grid.height == height,
                    self.grid.f_new == g0.f_new,
                    self.grid.dye == g0.dye,
                    flag_cells(self.grid.solid) == flag_cells(g0.solid),
                    x < width,
                    0 <= y <= height,
                    forall|x2: int, y2: int| 0 <= x2 < width && 0 <= y2 < height && (x2 < x || (x2 == x && y2 < y))
                        ==> #[trigger] cell_collided(g0, self.grid, *collide, x2, y2),
                    forall|x2: int, y2: int| 0 <= x2 < width && 0 <= y2 < height && (x2 > x || (x2 == x && y2 >= y))
                        ==> #[trigger] same_cell(g0, self.grid, cell_at(height as int, x2, y2)),
                decreases height - y,
            {
                let ghost before = self.grid;
                let ghost c = cell_at(height as int, x as int, y as int);
                proof {
                    lemma_slot_in_range(width as int, height as int, x as int, y as int, 0);
                }
                self.grid.collide_cell(x, y, collide);
                proof {
                    lemma_cell_collided_frame(before, self.grid, g0, self.grid, *collide, x as int, y as int);
                    assert forall|x2: int, y2: int| 0 <= x2 < width && 0 <= y2 < height && (x2 != x || y2 != y)
                        implies same_cell(before, self.grid, cell_at(height as int, x2, y2)) by {
                        lemma_slot_in_range(width as int, height as int, x2, y2, 0);
                        if cell_at(height as int, x2, y2) == c {
                            lemma_cell_injective(height as int, x2, y2, x as int, y as int);
                        }
                    }
                    assert forall|x2: int, y2: int| 0 <= x2 < width && 0 <= y2 < height && (x2 < x || (x2 == x && y2 < y + 1))
                        implies #[trigger] cell_collided(g0, self.grid, *collide, x2, y2) by {
                        if x2 != x || y2 != y {
                            lemma_cell_collided_frame(g0, before, g0, self.grid, *collide, x2, y2);
                        }
                    }
                    assert forall|x2: int, y2: int| 0 <= x2 < width && 0 <= y2 < height && (x2 > x || (x2 == x && y2 >= y + 1))
                        implies #[trigger] same_cell(g0, self.grid, cell_at(height as int, x2, y2)) by {
                        assert(same_cell(g0, before, cell_at(height as int, x2, y2)));
                        assert(same_cell(before, self.grid, cell_at(height as int, x2, y2)));
                    }
                }
                y += 1;
            }
            x += 1;
        }
    }

    /// One simulation step: the collision pass, then the streaming pass.
    pub fn tick<F: Fn([T; Q]) -> Collision<T>>(&mut self, collide: &F)
        requires
            old(self).wf(),
            forall|lane: [T; Q]| #[trigger] collide.requires((lane,)),
        ensures
            final(self).wf(),
            final(self).tau == old(self).tau,
            final(self).grid.width == old(self).grid.width,
            final(self).grid.height == old(self).grid.height,
            flag_cells(final(self).grid.solid) == flag_cells(old(self).grid.solid),
            ticked(old(self).grid, final(self).grid, *collide),
    {
        self.collide(collide);
        let ghost mid = self.grid;
        self.stream();
        assert(collided(old(self).grid, mid, *collide) && stream_step(mid, self.grid));
    }
}

/// Sets every slot of the distribution values to the value of its direction in `lane`.
fn fill_lanes<T: Copy>(f: &mut Vec<T>, cells: usize, lane: [T; Q])
    requires
        old(f).len() == cells * Q,
    ensures
        final(f).len() == old(f).len(),
        forall|c: int, i: int| 0 <= c < cells && 0 <= i < Q ==> #[trigger] final(f)@[c * Q + i] == lane@[i],
{
    let mut c: usize = 0;
    while c < cells
        invariant
            f.len() == cells * Q,
            0 <= c <= cells,
            forall|c2: int, i: int| 0 <= c2 < c && 0 <= i < Q ==> #[trigger] f@[c2 * Q + i] == lane@[i],
        decreases cells - c,
    {
        let mut i: usize = 0;
        while i < Q
            invariant
                f.len() == cells * Q,
                c < cells,
                0 <= i <= Q,
                forall|c2: int, i2: int| 0 <= c2 < c && 0 <= i2 < Q ==> #[trigger] f@[c2 * Q + i2] == lane@[i2],
                forall|i2: int| 0 <= i2 < i ==> #[trigger] f@[c * Q + i2] == lane@[i2],
            decreases Q - i,
        {
            f.set(c * Q + i, lane[i]);
            i += 1;
        }
        c += 1;
    }
}

impl<T: Copy> LbmEngine<T> {
    /// A fluid at rest: a lattice without walls whose every cell holds the
    /// distribution `rest` (the equilibrium at unit density and zero
    /// velocity) in both buffers, density `one` and zero velocity and dye.
    pub fn new(width: usize, height: usize, tau: T, zero: T, one: T, rest: [T; Q]) -> (e: Self)
        requires
            shape_fits(width as int, height as int),
        ensures
            e.wf(),
            e.grid.width == width,
            e.grid.height == height,
            e.tau == tau,
            forall|x: int, y: int, i: int| 0 <= x < width && 0 <= y < height && 0 <= i < Q ==> {
                &&& #[trigger] e.grid.f@[slot_at(height as int, x, y, i)] == rest@[i]
                &&& e.grid.f_new@[slot_at(height as int, x, y, i)] == rest@[i]
            },
            forall|c: int| 0 <= c < e.grid.num_cells() ==> {
                &&& #[trigger] e.grid.rho@[c] == one
                &&& e.grid.ux@[c] == zero
                &&& e.grid.uy@[c] == zero
                &&& e.grid.dye@[c] == zero
            },
            forall|x: int, y: int| 0 <= x < width && 0 <= y < height ==> !#[trigger] e.grid.solid_at(x, y),
    {
        let mut grid = LatticeGrid::new(width, height, zero, one);
        let ghost g0 = grid;
        let cells = width * height;
        fill_lanes(&mut grid.f, cells, rest);
        fill_lanes(&mut grid.f_new, cells, rest);
        proof {
            assert forall|x: int, y: int, i: int| 0 <= x < width && 0 <= y < height && 0 <= i < Q implies {
                &&& #[trigger] grid.f@[slot_at(height as int, x, y, i)] == rest@[i]
                &&& grid.f_new@[slot_at(height as int, x, y, i)] == rest@[i]
            } by {
                lemma_slot_in_range(width as int, height as int, x, y, i);
                let c = cell_at(height as int, x, y);
                assert(grid.f@[c * Q + i] == rest@[i]);
                assert(grid.f_new@[c * Q + i] == rest@[i]);
            }
            assert(grid.solid == g0.solid);
            assert forall|x: int, y: int| 0 <= x < width && 0 <= y < height implies !#[trigger] grid.solid_at(x, y) by {
                assert(!g0.solid_at(x, y));
            }
        }
        LbmEngine { grid, tau }
    }
}

/// Streaming conserves mass: a streaming pass only moves the distribution
/// values between slots, so they are the same values, each as often, before
/// and after it.
pub proof fn lemma_stream_step_keeps_values<T>(before: LatticeGrid<T>, after: LatticeGrid<T>)
    requires
        before.wf(),
        stream_step(before, after),
    ensures
        after.f@.to_multiset() =~= before.f@.to_multiset(),
{
    lemma_streaming_keeps_values(flag_cells(before.solid), before.width as int, before.height as int, before.f@, after.f@, |v: T| 0int);
}

/// After a step, the distribution values are the post-collision values,
/// which the second buffer keeps, moved between slots: the step creates and
/// destroys no mass beyond what the collision operator does.
pub proof fn lemma_tick_keeps_collided_values<T, F: Fn([T; Q]) -> Collision<T>>(
    before: LatticeGrid<T>,
    after: LatticeGrid<T>,
    collide: F,
)
    requires
        before.wf(),
        ticked(before, after, collide),
    ensures
        after.f@.to_multiset() =~= after.f_new@.to_multiset(),
{
    let mid = choose|mid: LatticeGrid<T>| collided(before, mid, collide) && #[trigger] stream_step(mid, after);
    lemma_stream_step_keeps_values(mid, after);
}

/// Walls hold their mass: in a step, a wall cell takes no part in the
/// collision and streaming reverses its values in place.
pub proof fn lemma_tick_reverses_wall_cells<T, F: Fn([T; Q]) -> Collision<T>>(
    before: LatticeGrid<T>,
    after: LatticeGrid<T>,
    collide: F,
    x: int,
    y: int,
    i: int,
)
    requires
        before.wf(),
        ticked(before, after, collide),
        0 <= x < before.width,
        0 <= y < before.height,
        0 <= i < Q,
        before.solid_at(x, y),
    ensures
        after.f_at(x, y, i) == before.f_at(x, y, opp(i)),
        after.solid_at(x, y),
{
    let mid = choose|mid: LatticeGrid<T>| collided(before, mid, collide) && #[trigger] stream_step(mid, after);
    lemma_opposite_involution(i);
    assert(cell_collided(before, mid, collide, x, y));
    let c = cell_at(before.height as int, x, y);
    assert(mid.f@[c * Q + opp(i)] == before.f@[c * Q + opp(i)]);
}

/// `collide` keeps the total of `weight` over the distribution values of
/// every cell it relaxes.
pub open spec fn conserves<T, F: Fn([T; Q]) -> Collision<T>>(collide: F, weight: spec_fn(T) -> int) -> bool {
    forall|inp: [T; Q], out: Collision<T>|
        #[trigger] collide.ensures((inp,), out) ==> total(out.f@, weight) == total(inp@, weight)
}

/// The weights of the values `lane` of cell `c`, each weighed at its slot.
pub open spec fn lane_weights<T>(lane: Seq<T>, weight: spec_fn(int, T) -> int, c: int) -> Seq<int> {
    Seq::new(Q as nat, |i: int| weight(c * Q + i, lane[i]))
}

/// `collide`, relaxing cell `c`, keeps the total of the slot-dependent
/// `weight` over the cell's values.
pub open spec fn conserves_at<T, F: Fn([T; Q]) -> Collision<T>>(
    collide: F,
    weight: spec_fn(int, T) -> int,
    c: int,
) -> bool {
    forall|inp: [T; Q], out: Collision<T>|
        #[trigger] collide.ensures((inp,), out) ==> total(lane_weights(out.f@, weight, c), |v: int| v)
            == total(lane_weights(inp@, weight, c), |v: int| v)
}

/// `collide` keeps the weight at every fluid cell of `g`.
pub open spec fn conserves_on_fluid<T, F: Fn([T; Q]) -> Collision<T>>(
    g: LatticeGrid<T>,
    collide: F,
    weight: spec_fn(int, T) -> int,
) -> bool {
    forall|x: int, y: int|
        0 <= x < g.width && 0 <= y < g.height && !g.solid_at(x, y) ==> #[trigger] conserves_at(
            collide,
            weight,
            cell_at(g.height as int, x, y),
        )
}

/// A collision pass keeps, cell by cell, what the collision operator keeps.
proof fn lemma_collision_keeps_indexed_total_upto<T, F: Fn([T; Q]) -> Collision<T>>(
    before: LatticeGrid<T>,
    after: LatticeGrid<T>,
    collide: F,
    weight: spec_fn(int, T) -> int,
    c: int,
)
    requires
        before.wf(),
        collided(before, after, collide),
        conserves_on_fluid(before, collide, weight),
        0 <= c <= before.num_cells(),
    ensures
        total(weighted(after.f@, weight).take(c * Q), |v: int| v)
            == total(weighted(before.f@, weight).take(c * Q), |v: int| v),
    decreases c,
{
    if c > 0 {
        let id = |v: int| v;
        let d = c - 1;
        lemma_collision_keeps_indexed_total_upto(before, after, collide, weight, d);
        let (w, h) = (before.width as int, before.height as int);
        assert(0 <= d * Q < w * h * Q);
        lemma_slot_decompose(w, h, d * Q);
        let x = (d * Q / Q as int) / h;
        let y = (d * Q / Q as int) % h;
        assert(cell_at(h, x, y) == d);
        assert(cell_collided(before, after, collide, x, y));
        let wb = weighted(before.f@, weight);
        let wa = weighted(after.f@, weight);
        let lb = wb.subrange(d * Q, d * Q + Q);
        let la = wa.subrange(d * Q, d * Q + Q);
        assert(after.f.len() == before.f.len());
        if before.solid_at(x, y) {
            assert forall|i: int| 0 <= i < Q implies la[i] == lb[i] by {
                assert(after.f@[d * Q + i] == before.f@[d * Q + i]);
            }
            assert(la =~= lb);
        } else {
            let (inp, out) = choose|inp: [T; Q], out: Collision<T>|
                {
                    &&& #[trigger] collide.ensures((inp,), out)
                    &&& forall|i: int| 0 <= i < Q ==> #[trigger] inp@[i] == before.f@[d * Q + i]
                    &&& forall|i: int| 0 <= i < Q ==> #[trigger] after.f@[d * Q + i] == out.f@[i]
                    &&& after.rho@[d] == out.rho
                    &&& after.ux@[d] == out.ux
                    &&& after.uy@[d] == out.uy
                };
            assert(conserves_at(collide, weight, cell_at(h, x, y)));
            assert forall|i: int| 0 <= i < Q implies lb[i] == lane_weights(inp@, weight, d)[i] by {
                assert(inp@[i] == before.f@[d * Q + i]);
            }
            assert forall|i: int| 0 <= i < Q implies la[i] == lane_weights(out.f@, weight, d)[i] by {
                assert(after.f@[d * Q + i] == out.f@[i]);
            }
            assert(lb =~= lane_weights(inp@, weight, d));
            assert(la =~= lane_weights(out.f@, weight, d));
        }
        assert(wb.take(c * Q) =~= wb.take(d * Q) + lb);
        assert(wa.take(c * Q) =~= wa.take(d * Q) + la);
        lemma_total_concat(wb.take(d * Q), lb, id);
        lemma_total_concat(wa.take(d * Q), la, id);
    }
}

/// A collision pass keeps the total of every slot-dependent weight that
/// the collision operator keeps at each fluid cell: wall cells do not
/// change and fluid cells are relaxed by `collide`.
pub proof fn lemma_collision_keeps_indexed_total<T, F: Fn([T; Q]) -> Collision<T>>(
    before: LatticeGrid<T>,
    after: LatticeGrid<T>,
    collide: F,
    weight: spec_fn(int, T) -> int,
)
    requires
        before.wf(),
        collided(before, after, collide),
        conserves_on_fluid(before, collide, weight),
    ensures
        indexed_total(after.f@, weight) == indexed_total(before.f@, weight),
{
    lemma_collision_keeps_indexed_total_upto(before, after, collide, weight, before.num_cells());
    assert(weighted(after.f@, weight).take(before.num_cells() * Q) =~= weighted(after.f@, weight));
    assert(weighted(before.f@, weight).take(before.num_cells() * Q) =~= weighted(before.f@, weight));
}

/// A collision operator that keeps a plain total in every cell keeps it at
/// every cell of any lattice.
proof fn lemma_conserves_everywhere<T, F: Fn([T; Q]) -> Collision<T>>(
    g: LatticeGrid<T>,
    collide: F,
    weight: spec_fn(T) -> int,
)
    requires
        conserves(collide, weight),
    ensures
        conserves_on_fluid(g, collide, |k: int, v: T| weight(v)),
{
    let iw = |k: int, v: T| weight(v);
    assert forall|x: int, y: int| 0 <= x < g.width && 0 <= y < g.height && !g.solid_at(x, y)
        implies #[trigger] conserves_at(collide, iw, cell_at(g.height as int, x, y)) by {
        let c = cell_at(g.height as int, x, y);
        assert forall|inp: [T; Q], out: Collision<T>| #[trigger] collide.ensures((inp,), out)
            implies total(lane_weights(out.f@, iw, c), |v: int| v) == total(lane_weights(inp@, iw, c), |v: int| v) by {
            assert(lane_weights(out.f@, iw, c) =~= weighted(out.f@, iw));
            assert(lane_weights(inp@, iw, c) =~= weighted(inp@, iw));
            lemma_indexed_total_plain(out.f@, weight);
            lemma_indexed_total_plain(inp@, weight);
        }
    }
}

/// A collision pass keeps every quantity that the collision operator keeps
/// in each cell: wall cells do not change and fluid cells are relaxed by
/// `collide`.
pub proof fn lemma_collision_keeps_total<T, F: Fn([T; Q]) -> Collision<T>>(
    before: LatticeGrid<T>,
    after: LatticeGrid<T>,
    collide: F,
    weight: spec_fn(T) -> int,
)
    requires
        before.wf(),
        collided(before, after, collide),
        conserves(collide, weight),
    ensures
        total(after.f@, weight) == total(before.f@, weight),
{
    lemma_conserves_everywhere(before, collide, weight);
    lemma_collision_keeps_indexed_total(before, after, collide, |k: int, v: T| weight(v));
    lemma_indexed_total_plain(after.f@, weight);
    lemma_indexed_total_plain(before.f@, weight);
}

/// Mass conservation of a simulation step: on a lattice with periodic edges
/// and bounce-back walls, a step keeps the total of every quantity that the
/// collision operator keeps in each cell. With the BGK operator and the
/// density as the quantity, this is the conservation of mass.
pub proof fn lemma_tick_keeps_total<T, F: Fn([T; Q]) -> Collision<T>>(
    before: LatticeGrid<T>,
    after: LatticeGrid<T>,
    collide: F,
    weight: spec_fn(T) -> int,
)
    requires
        before.wf(),
        ticked(before, after, collide),
        conserves(collide, weight),
    ensures
        total(after.f@, weight) == total(before.f@, weight),
{
    let mid = choose|mid: LatticeGrid<T>| collided(before, mid, collide) && #[trigger] stream_step(mid, after);
    lemma_collision_keeps_total(before, mid, collide, weight);
    lemma_streaming_keeps_values(flag_cells(mid.solid), mid.width as int, mid.height as int, mid.f@, after.f@, weight);
}

/// A weight of a value that depends on the value's direction, applied at
/// every slot of the lattice.
pub open spec fn by_direction<T>(weight: spec_fn(int, T) -> int) -> spec_fn(int, T) -> int {
    |k: int, v: T| weight(k % (Q as int), v)
}

/// Weighing a cell's values at their slots by direction is weighing them
/// by their index in the cell.
proof fn lemma_lane_weights_by_direction<T>(lane: Seq<T>, weight: spec_fn(int, T) -> int, c: int)
    requires
        lane.len() == Q,
        0 <= c,
    ensures
        lane_weights(lane, by_direction(weight), c) =~= weighted(lane, weight),
{
    assert forall|i: int| 0 <= i < Q implies #[trigger] lane_weights(lane, by_direction(weight), c)[i]
        == weighted(lane, weight)[i] by {
        lemma_fundamental_div_mod_converse(c * Q + i, Q as int, c, i);
    }
}

/// `collide` keeps the total of the direction-dependent `weight` over the
/// values of every cell it relaxes (`weight(i, v)` weighs value `v` of
/// direction `i`).
pub open spec fn conserves_directed<T, F: Fn([T; Q]) -> Collision<T>>(
    collide: F,
    weight: spec_fn(int, T) -> int,
) -> bool {
    forall|inp: [T; Q], out: Collision<T>|
        #[trigger] collide.ensures((inp,), out) ==> indexed_total(out.f@, weight) == indexed_total(inp@, weight)
}

/// Momentum conservation of a simulation step on a lattice without walls:
/// a step keeps the total of every direction-dependent weight that the
/// collision operator keeps in each cell. With `weight(i, v)` the velocity
/// component `C_X[i]` (or `C_Y[i]`) times the mass of `v`, and the BGK
/// operator, which keeps each cell's momentum, this is the conservation of
/// momentum. (Bounce-back walls reverse momentum, so walls are left out.)
pub proof fn lemma_tick_keeps_momentum<T, F: Fn([T; Q]) -> Collision<T>>(
    before: LatticeGrid<T>,
    after: LatticeGrid<T>,
    collide: F,
    weight: spec_fn(int, T) -> int,
)
    requires
        before.wf(),
        ticked(before, after, collide),
        conserves_directed(collide, weight),
        forall|x: int, y: int| 0 <= x < before.width && 0 <= y < before.height ==> !#[trigger] before.solid_at(x, y),
    ensures
        indexed_total(after.f@, by_direction(weight)) == indexed_total(before.f@, by_direction(weight)),
{
    let mid = choose|mid: LatticeGrid<T>| collided(before, mid, collide) && #[trigger] stream_step(mid, after);
    let bw = by_direction(weight);
    let (w, h) = (before.width as int, before.height as int);
    assert forall|x: int, y: int| 0 <= x < w && 0 <= y < h && !before.solid_at(x, y)
        implies #[trigger] conserves_at(collide, bw, cell_at(h, x, y)) by {
        let c = cell_at(h, x, y);
        lemma_slot_in_range(w, h, x, y, 0);
        assert forall|inp: [T; Q], out: Collision<T>| #[trigger] collide.ensures((inp,), out)
            implies total(lane_weights(out.f@, bw, c), |v: int| v) == total(lane_weights(inp@, bw, c), |v: int| v) by {
            lemma_lane_weights_by_direction(out.f@, weight, c);
            lemma_lane_weights_by_direction(inp@, weight, c);
        }
    }
    lemma_collision_keeps_indexed_total(before, mid, collide, bw);
    let solid = flag_cells(mid.solid);
    assert forall|k: int, v: T| 0 <= k < mid.f@.len() implies #[trigger] bw(pull_slot(solid, w, h, k), v) == bw(k, v) by {
        lemma_slot_decompose(w, h, k);
        let (x, y, i) = (slot_x(h, k), slot_y(h, k), slot_dir(k));
        lemma_pull_push_inverse(solid, w, h, x, y, i);
        let src = pull_source(solid, w, h, x, y, i);
        assert(flag_cells(mid.solid) == flag_cells(before.solid));
        lemma_unit_velocities(i);
        lemma_wrap_round_trip(x, cx(i), w);
        lemma_wrap_round_trip(y, cy(i), h);
        let up = upstream(w, h, x, y, i);
        assert(!before.solid_at(x, y));
        assert(!before.solid_at(up.0, up.1));
        assert(src.2 == i);
        lemma_slot_compose(w, h, src.0, src.1, src.2);
    }
    lemma_streaming_keeps_indexed_total(solid, w, h, mid.f@, after.f@, bw);
}

/// A weight counted only on the wall cells (`walls`) or only on the fluid
/// cells (`!walls`) of a lattice with walls `solid`.
pub open spec fn on_cells<T>(
    solid: Map<(int, int), bool>,
    height: int,
    walls: bool,
    weight: spec_fn(T) -> int,
) -> spec_fn(int, T) -> int {
    |k: int, v: T| if solid[(slot_x(height, k), slot_y(height, k))] == walls { weight(v) } else { 0 }
}

/// Weighing the values of fluid cell `(x, y)` on the fluid cells weighs all
/// of them; weighing them on the wall cells weighs none.
proof fn lemma_lane_on_cells<T>(
    lane: Seq<T>,
    solid: Map<(int, int), bool>,
    width: int,
    height: int,
    walls: bool,
    weight: spec_fn(T) -> int,
    x: int,
    y: int,
)
    requires
        lane.len() == Q,
        0 <= x < width,
        0 <= y < height,
        !solid[(x, y)],
    ensures
        lane_weights(lane, on_cells(solid, height, walls, weight), cell_at(height, x, y)) =~= if walls {
            Seq::new(Q as nat, |i: int| 0int)
        } else {
            weighted(lane, |k: int, v: T| weight(v))
        },
{
    let ow = on_cells(solid, height, walls, weight);
    let c = cell_at(height, x, y);
    assert forall|i: int| 0 <= i < Q implies #[trigger] lane_weights(lane, ow, c)[i] == (if walls {
        Seq::new(Q as nat, |i: int| 0int)
    } else {
        weighted(lane, |k: int, v: T| weight(v))
    })[i] by {
        lemma_slot_compose(width, height, x, y, i);
    }
}

/// Walls and fluid each keep their mass: a step keeps the total of a weight
/// over the wall cells alone, and, where the collision operator keeps it in
/// each cell, over the fluid cells alone. Nothing crosses between wall and
/// fluid, since bounce-back returns each particle to where it came from.
pub proof fn lemma_tick_keeps_wall_and_fluid_totals<T, F: Fn([T; Q]) -> Collision<T>>(
    before: LatticeGrid<T>,
    after: LatticeGrid<T>,
    collide: F,
    weight: spec_fn(T) -> int,
    walls: bool,
)
    requires
        before.wf(),
        ticked(before, after, collide),
        !walls ==> conserves(collide, weight),
    ensures
        ({
            let ow = on_cells(flag_cells(before.solid), before.height as int, walls, weight);
            indexed_total(after.f@, ow) == indexed_total(before.f@, ow)
        }),
{
    let mid = choose|mid: LatticeGrid<T>| collided(before, mid, collide) && #[trigger] stream_step(mid, after);
    let solid = flag_cells(before.solid);
    let (w, h) = (before.width as int, before.height as int);
    let ow = on_cells(solid, h, walls, weight);
    let iw = |k: int, v: T| weight(v);
    assert forall|x: int, y: int| 0 <= x < w && 0 <= y < h && !before.solid_at(x, y)
        implies #[trigger] conserves_at(collide, ow, cell_at(h, x, y)) by {
        let c = cell_at(h, x, y);
        assert forall|inp: [T; Q], out: Collision<T>| #[trigger] collide.ensures((inp,), out)
            implies total(lane_weights(out.f@, ow, c), |v: int| v) == total(lane_weights(inp@, ow, c), |v: int| v) by {
            lemma_lane_on_cells(out.f@, solid, w, h, walls, weight, x, y);
            lemma_lane_on_cells(inp@, solid, w, h, walls, weight, x, y);
            if walls {
                assert(lane_weights(out.f@, ow, c) =~= lane_weights(inp@, ow, c));
            } else {
                lemma_indexed_total_plain(out.f@, weight);
                lemma_indexed_total_plain(inp@, weight);
            }
        }
    }
    lemma_collision_keeps_indexed_total(before, mid, collide, ow);
    assert forall|k: int, v: T| 0 <= k < mid.f@.len() implies #[trigger] ow(pull_slot(solid, w, h, k), v) == ow(k, v) by {
        lemma_slot_decompose(w, h, k);
        let (x, y, i) = (slot_x(h, k), slot_y(h, k), slot_dir(k));
        lemma_pull_push_inverse(solid, w, h, x, y, i);
        let src = pull_source(solid, w, h, x, y, i);
        assert(solid[(src.0, src.1)] == solid[(x, y)]);
        lemma_slot_compose(w, h, src.0, src.1, src.2);
    }
    lemma_streaming_keeps_indexed_total(solid, w, h, mid.f@, after.f@, ow);
}

/// What a collision pass does at a cell: a wall cell keeps its values and
/// moments; a fluid cell holds the values and moments that `collide` gives
/// for its own values before the pass.
pub proof fn lemma_collision_at_cell<T, F: Fn([T; Q]) -> Collision<T>>(
    before: LatticeGrid<T>,
    after: LatticeGrid<T>,
    collide: F,
    x: int,
    y: int,
)
    requires
        before.wf(),
        collided(before, after, collide),
        0 <= x < before.width,
        0 <= y < before.height,
    ensures
        ({
            let c = x * before.height + y;
            let lane_before = before.f@.subrange(c * 9, c * 9 + 9);
            let lane_after = after.f@.subrange(c * 9, c * 9 + 9);
            &&& before.solid_at(x, y) ==> lane_after == lane_before && after.rho@[c] == before.rho@[c]
                && after.ux@[c] == before.ux@[c] && after.uy@[c] == before.uy@[c]
            &&& !before.solid_at(x, y) ==> exists|inp: [T; Q], out: Collision<T>|
                #[trigger] collide.ensures((inp,), out) && inp@ == lane_before && lane_after == out.f@
                    && after.rho@[c] == out.rho && after.ux@[c] == out.ux && after.uy@[c] == out.uy
        }),
{
    let c = x * before.height + y;
    assert(cell_collided(before, after, collide, x, y));
    lemma_slot_in_range(before.width as int, before.height as int, x, y, 8);
    assert(after.f.len() == before.f.len());
    assert(c * 9 + 9 <= before.f.len());
    if before.solid_at(x, y) {
        let la = after.f@.subrange(c * 9, c * 9 + 9);
        let lb = before.f@.subrange(c * 9, c * 9 + 9);
        assert forall|i: int| 0 <= i < Q implies #[trigger] la[i] == lb[i] by {
            assert(after.f@[c * Q + i] == before.f@[c * Q + i]);
        }
        assert(after.f@.subrange(c * 9, c * 9 + 9) =~= before.f@.subrange(c * 9, c * 9 + 9));
    } else {
        let (inp, out) = choose|inp: [T; Q], out: Collision<T>|
            {
                &&& #[trigger] collide.ensures((inp,), out)
                &&& forall|i: int| 0 <= i < Q ==> #[trigger] inp@[i] == before.f@[c * Q + i]
                &&& forall|i: int| 0 <= i < Q ==> #[trigger] after.f@[c * Q + i] == out.f@[i]
                &&& after.rho@[c] == out.rho
                &&& after.ux@[c] == out.ux
                &&& after.uy@[c] == out.uy
            };
        assert(inp@ =~= before.f@.subrange(c * 9, c * 9 + 9));
        let la = after.f@.subrange(c * 9, c * 9 + 9);
        assert forall|i: int| 0 <= i < Q implies #[trigger] la[i] == out.f@[i] by {
            assert(after.f@[c * Q + i] == out.f@[i]);
        }
        assert(la =~= out.f@);
    }
}

} // verus!
