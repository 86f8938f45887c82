//! The lattice domain: a `width` by `height` grid of cells, each carrying
//! `Q` distribution values, the macroscopic fields and a solid flag.
//!
//! Data is laid out as a struct of arrays. The distribution value of
//! direction `i` at cell `(x, y)` sits at slot `(x * height + y) * Q + i`;
//! the macroscopic value of a cell sits at `x * height + y`. This is the
//! row-major order of an array of shape `(width, height, Q)`.
//!
//! The values are of a type `T` of the caller's choice (the simulation uses
//! `f64`): the grid only stores, copies and moves them.
use vstd::prelude::*;
use crate::lbm::constants::Q;
use crate::lbm::flags::{SolidFlags, flag_cells, flag_get, flag_set, flags_from_elem, index_domain, nonzero_or_one};

verus! {

/// Index of cell `(x, y)` in the per-cell arrays.
pub open spec fn cell_at(height: int, x: int, y: int) -> int {
    x * height + y
}

/// Index of the value of direction `i` at cell `(x, y)` in the distribution arrays.
pub open spec fn slot_at(height: int, x: int, y: int, i: int) -> int {
    cell_at(height, x, y) * Q + i
}

/// A lattice whose shape is larger than ndarray allows makes it panic.
pub open spec fn shape_fits(width: int, height: int) -> bool {
    nonzero_or_one(width) * nonzero_or_one(height) * Q <= isize::MAX
}

/// Cells of a `width` by `height` lattice are numbered without gaps or
/// overlaps, and every slot index lies inside the distribution arrays.
pub proof fn lemma_slot_in_range(width: int, height: int, x: int, y: int, i: int)
    requires
        0 <= x < width,
        0 <= y < height,
        0 <= i < Q,
    ensures
        0 <= cell_at(height, x, y) < width * height,
        0 <= slot_at(height, x, y, i) < width * height * Q,
{
    assert(x * height + y < width * height) by (nonlinear_arith)
        requires 0 <= x < width, 0 <= y < height;
    assert(0 <= x * height) by (nonlinear_arith)
        requires 0 <= x, 0 <= height;
    assert((x * height + y) * Q + i < width * height * Q) by (nonlinear_arith)
        requires x * height + y < width * height, 0 <= i < Q;
}

/// Two distinct cells have distinct cell indices.
pub proof fn lemma_cell_injective(height: int, x1: int, y1: int, x2: int, y2: int)
    requires
        0 <= x1,
        0 <= x2,
        0 <= y1 < height,
        0 <= y2 < height,
        cell_at(height, x1, y1) == cell_at(height, x2, y2),
    ensures
        x1 == x2,
        y1 == y2,
{
    if x1 < x2 {
        assert(x1 * height + height <= x2 * height) by (nonlinear_arith)
            requires x1 < x2, 0 <= height;
    } else if x2 < x1 {
        assert(x2 * height + height <= x1 * height) by (nonlinear_arith)
            requires x2 < x1, 0 <= height;
    }
}

/// A lattice of `width * height` cells with `Q` distribution values per cell.
pub struct LatticeGrid<T> {
    pub width: usize,
    pub height: usize,
    /// Distribution values `f_i` of the current step.
    pub f: Vec<T>,
    /// Distribution values of the next step; the streaming pass writes them.
    pub f_new: Vec<T>,
    /// Macroscopic density of each cell.
    pub rho: Vec<T>,
    /// Macroscopic x velocity of each cell.
    pub ux: Vec<T>,
    /// Macroscopic y velocity of each cell.
    pub uy: Vec<T>,
    /// Passive dye concentration of each cell.
    pub dye: Vec<T>,
    /// Solid flags: `true` = wall, `false` = fluid.
    pub solid: SolidFlags,
}

impl<T> LatticeGrid<T> {
    /// Number of cells.
    pub open spec fn num_cells(&self) -> int {
        self.width * self.height
    }

    /// The arrays have the lengths and the flags the shape that the
    /// lattice's size asks for.
    pub open spec fn wf(&self) -> bool {
        &&& self.f.len() == self.num_cells() * Q
        &&& self.f_new.len() == self.num_cells() * Q
        &&& self.rho.len() == self.num_cells()
        &&& self.ux.len() == self.num_cells()
        &&& self.uy.len() == self.num_cells()
        &&& self.dye.len() == self.num_cells()
        &&& flag_cells(self.solid).dom() == index_domain(self.width as int, self.height as int)
    }

    /// Whether cell `(x, y)` is a wall.
    pub open spec fn solid_at(&self, x: int, y: int) -> bool {
        flag_cells(self.solid)[(x, y)]
    }

    /// The distribution value of direction `i` at cell `(x, y)`.
    pub open spec fn f_at(&self, x: int, y: int, i: int) -> T {
        self.f@[slot_at(self.height as int, x, y, i)]
    }

    /// Index of cell `(x, y)` in the per-cell arrays.
    pub fn cell_index(&self, x: usize, y: usize) -> (c: usize)
        requires
            self.wf(),
            x < self.width,
            y < self.height,
        ensures
            c == cell_at(self.height as int, x as int, y as int),
            c < self.num_cells(),
    {
        proof {
            lemma_slot_in_range(self.width as int, self.height as int, x as int, y as int, 0);
        }
        x * self.height + y
    }

    /// Index of direction `i` at cell `(x, y)` in the distribution arrays.
    pub fn slot_index(&self, x: usize, y: usize, i: usize) -> (k: usize)
        requires
            self.wf(),
            x < self.width,
            y < self.height,
            i < Q,
        ensures
            k == slot_at(self.height as int, x as int, y as int, i as int),
            k < self.f.len(),
    {
        proof {
            lemma_slot_in_range(self.width as int, self.height as int, x as int, y as int, i as int);
        }
        (x * self.height + y) * Q + i
    }

    /// Whether cell `(x, y)` is a wall.
    pub fn is_solid(&self, x: usize, y: usize) -> (b: bool)
        requires
            self.wf(),
            x < self.width,
            y < self.height,
        ensures
            b == self.solid_at(x as int, y as int),
    {
        flag_get(&self.solid, x, y)
    }

    /// Marks cell `(x, y)` as a wall (`true`) or as fluid (`false`);
    /// nothing else changes.
    pub fn set_solid(&mut self, x: usize, y: usize, v: bool)
        requires
            old(self).wf(),
            x < old(self).width,
            y < old(self).height,
        ensures
            final(self).wf(),
            flag_cells(final(self).solid) == flag_cells(old(self).solid).insert((x as int, y as int), v),
            final(self).width == old(self).width,
            final(self).height == old(self).height,
            final(self).f == old(self).f,
            final(self).f_new == old(self).f_new,
            final(self).rho == old(self).rho,
            final(self).ux == old(self).ux,
            final(self).uy == old(self).uy,
            final(self).dye == old(self).dye,
    {
        flag_set(&mut self.solid, x, y, v);
        assert(flag_cells(self.solid).dom() =~= index_domain(self.width as int, self.height as int));
    }
}

/// A vector of `n` copies of `v`.
fn filled<T: Copy>(n: usize, v: T) -> (r: Vec<T>)
    ensures
        r.len() == n,
        forall|k: int| 0 <= k < n ==> #[trigger] r@[k] == v,
{
    let mut r: Vec<T> = Vec::new();
    let mut k: usize = 0;
    while k < n
        invariant
            k <= n,
            r.len() == k,
            forall|j: int| 0 <= j < k ==> #[trigger] r@[j] == v,
        decreases n - k,
    {
        r.push(v);
        k += 1;
    }
    r
}

impl<T: Copy> LatticeGrid<T> {
    /// A `width` by `height` lattice with no walls: every distribution value,
    /// velocity and dye value is `zero`, every density is `one`.
    pub fn new(width: usize, height: usize, zero: T, one: T) -> (g: Self)
        requires
            shape_fits(width as int, height as int),
        ensures
            g.wf(),
            g.width == width,
            g.height == height,
            forall|k: int| 0 <= k < g.f.len() ==> #[trigger] g.f@[k] == zero,
            forall|k: int| 0 <= k < g.f_new.len() ==> #[trigger] g.f_new@[k] == zero,
            forall|c: int| 0 <= c < g.num_cells() ==> #[trigger] g.rho@[c] == one,
            forall|c: int| 0 <= c < g.num_cells() ==> #[trigger] g.ux@[c] == zero,
            forall|c: int| 0 <= c < g.num_cells() ==> #[trigger] g.uy@[c] == zero,
            forall|c: int| 0 <= c < g.num_cells() ==> #[trigger] g.dye@[c] == zero,
            forall|x: int, y: int| 0 <= x < width && 0 <= y < height ==> !#[trigger] g.solid_at(x, y),
    {
        proof {
            let (w, h) = (width as int, height as int);
            assert(w * h <= nonzero_or_one(w) * nonzero_or_one(h)) by (nonlinear_arith)
                requires 0 <= w, 0 <= h, w <= nonzero_or_one(w), h <= nonzero_or_one(h);
            assert(nonzero_or_one(w) * nonzero_or_one(h) <= nonzero_or_one(w) * nonzero_or_one(h) * Q) by (nonlinear_arith)
                requires 1 <= nonzero_or_one(w), 1 <= nonzero_or_one(h);
            assert(w * h * Q <= nonzero_or_one(w) * nonzero_or_one(h) * Q) by (nonlinear_arith)
                requires w * h <= nonzero_or_one(w) * nonzero_or_one(h);
        }
        let cells = width * height;
        let slots = cells * Q;
        LatticeGrid {
            width,
            height,
            f: filled(slots, zero),
            f_new: filled(slots, zero),
            rho: filled(cells, one),
            ux: filled(cells, zero),
            uy: filled(cells, zero),
            dye: filled(cells, zero),
            solid: flags_from_elem(width, height, false),
        }
    }
}

impl<T: Copy> LatticeGrid<T> {
    /// Sets the distribution values of cell `(x, y)` to `lane`; nothing else changes.
    pub fn set_lane(&mut self, x: usize, y: usize, lane: [T; Q])
        requires
            old(self).wf(),
            x < old(self).width,
            y < old(self).height,
        ensures
            final(self).wf(),
            final(self).width == old(self).width,
            final(self).height == old(self).height,
            final(self).f.len() == old(self).f.len(),
            forall|x2: int, y2: int, i: int|
                0 <= x2 < old(self).width && 0 <= y2 < old(self).height && 0 <= i < Q ==> #[trigger] final(self).f_at(x2, y2, i)
                    == if x2 == x && y2 == y { lane@[i] } else { old(self).f_at(x2, y2, i) },
            final(self).f_new == old(self).f_new,
            final(self).rho == old(self).rho,
            final(self).ux == old(self).ux,
            final(self).uy == old(self).uy,
            final(self).dye == old(self).dye,
            final(self).solid == old(self).solid,
    {
        let ghost g0 = *self;
        let b = self.slot_index(x, y, 0);
        proof {
            lemma_slot_in_range(self.width as int, self.height as int, x as int, y as int, Q - 1);
        }
        let mut i: usize = 0;
        while i < Q
            invariant
                self.wf(),
                self.width == g0.width,
                self.height == g0.height,
                self.f_new == g0.f_new,
                self.rho == g0.rho,
                self.ux == g0.ux,
                self.uy == g0.uy,
                self.dye == g0.dye,
                self.solid == g0.solid,
                self.f.len() == g0.f.len(),
                b == slot_at(g0.height as int, x as int, y as int, 0),
                b + Q <= self.f.len(),
                0 <= i <= Q,
                forall|k: int| 0 <= k < i ==> #[trigger] self.f@[b + k] == lane@[k],
                forall|k: int| 0 <= k < self.f.len() && !(b <= k < b + i) ==> #[trigger] self.f@[k] == g0.f@[k],
            decreases Q - i,
        {
            self.f.set(b + i, lane[i]);
            i += 1;
        }
        proof {
            assert forall|x2: int, y2: int, i: int|
                0 <= x2 < g0.width && 0 <= y2 < g0.height && 0 <= i < Q implies #[trigger] self.f_at(x2, y2, i)
                    == if x2 == x && y2 == y { lane@[i] } else { g0.f_at(x2, y2, i) } by {
                lemma_slot_in_range(g0.width as int, g0.height as int, x2, y2, i);
                if x2 != x || y2 != y {
                    if cell_at(g0.height as int, x2, y2) == cell_at(g0.height as int, x as int, y as int) {
                        lemma_cell_injective(g0.height as int, x2, y2, x as int, y as int);
                    }
                } else {
                    assert(self.f@[b + i] == lane@[i]);
                }
            }
        }
    }
}

/// Whether a `width` by `height` lattice can be allocated, that is whether
/// `shape_fits` holds.
pub fn fits(width: usize, height: usize) -> (b: bool)
    ensures
        b == shape_fits(width as int, height as int),
{
    let w: usize = if width == 0 { 1 } else { width };
    let h: usize = if height == 0 { 1 } else { height };
    match w.checked_mul(h) {
        Some(wh) => match wh.checked_mul(Q) {
            Some(n) => n <= isize::MAX as usize,
            None => false,
        },
        None => false,
    }
}

} // verus!
