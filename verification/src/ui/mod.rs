//! Interventions from outside the physics: the wind-tunnel inlet and the
//! walls that the user paints and erases, and the schedule that runs them
//! with the simulation steps.
pub mod input;

use vstd::prelude::*;
use crate::lbm::constants::Q;
use crate::lbm::flags::flag_cells;
use crate::lbm::grid::LatticeGrid;
use crate::lbm::{Collision, LbmEngine, ticked};


verus! {

/// How many simulation steps run between two rendered frames.
pub const PHYSICS_TICKS_PER_FRAME: u32 = 4;

/// The cells that the inlet resets: the two left-most columns, without the
/// top and bottom rows.
pub open spec fn in_inlet(height: int, x: int, y: int) -> bool {
    0 <= x < 2 && 1 <= y < height - 1
}

/// `after` is `before` with every inlet cell holding `inflow` and nothing
/// else changed.
pub open spec fn inlet_forced<T>(before: LatticeGrid<T>, after: LatticeGrid<T>, inflow: [T; Q]) -> bool {
    &&& after.wf()
    &&& after.width == before.width
    &&& after.height == before.height
    &&& forall|x: int, y: int, i: int|
        0 <= x < before.width && 0 <= y < before.height && 0 <= i < Q ==> #[trigger] after.f_at(x, y, i)
            == if in_inlet(before.height as int, x, y) { inflow@[i] } else { before.f_at(x, y, i) }
    &&& after.f_new == before.f_new
    &&& after.rho == before.rho
    &&& after.ux == before.ux
    &&& after.uy == before.uy
    &&& after.dye == before.dye
    &&& after.solid == before.solid
}

/// The inlet resets exactly the two left-most columns, top and bottom rows
/// excluded, whatever the lattice's size: every other cell keeps its values.
pub proof fn lemma_inlet_cells<T>(before: LatticeGrid<T>, after: LatticeGrid<T>, inflow: [T; Q], x: int, y: int, i: int)
    requires
        inlet_forced(before, after, inflow),
        0 <= x < before.width,
        0 <= y < before.height,
        0 <= i < Q,
    ensures
        (x == 0 || x == 1) && 1 <= y && y + 1 < before.height ==> after.f_at(x, y, i) == inflow@[i],
        x >= 2 ==> after.f_at(x, y, i) == before.f_at(x, y, i),
        y == 0 || y == before.height - 1 ==> after.f_at(x, y, i) == before.f_at(x, y, i),
{
}

/// The inlet of a lattice with inlet rows needs both inlet columns.
pub open spec fn inlet_fits(width: int, height: int) -> bool {
    height <= 2 || width >= 2
}

/// Resets the left-most two columns, top and bottom rows excluded, to the
/// distribution `inflow` (a steady rightward-flowing equilibrium): fluid is
/// injected from the left edge like at a wind-tunnel inlet.
pub fn apply_inlet_forcing<T: Copy>(engine: &mut LbmEngine<T>, inflow: [T; Q])
    requires
        old(engine).wf(),
        inlet_fits(old(engine).grid.width as int, old(engine).grid.height as int),
    ensures
        final(engine).wf(),
        inlet_forced(old(engine).grid, final(engine).grid, inflow),
        final(engine).tau == old(engine).tau,
{
    let ghost g0 = engine.grid;
    let height = engine.grid.height;
    let width = engine.grid.width;
    let mut y: usize = 1;
    while y < height.saturating_sub(1)
        invariant
            engine.grid.wf(),
            engine.tau == old(engine).tau,
            g0 == old(engine).grid,
            width == g0.width,
            height == g0.height,
            inlet_fits(width as int, height as int),
            1 <= y,
            y <= height || height <= 1,
            engine.grid.width == width,
            engine.grid.height == height,
            engine.grid.f_new == g0.f_new,
            engine.grid.rho == g0.rho,
            engine.grid.ux == g0.ux,
            engine.grid.uy == g0.uy,
            engine.grid.dye == g0.dye,
            engine.grid.solid == g0.solid,
            forall|x: int, y2: int, i: int|
                0 <= x < width && 0 <= y2 < height && 0 <= i < Q ==> #[trigger] engine.grid.f_at(x, y2, i)
                    == if in_inlet(height as int, x, y2) && y2 < y { inflow@[i] } else { g0.f_at(x, y2, i) },
        decreases height - y,
    {
        let mut col: usize = 0;
        while col < 2
            invariant
                engine.grid.wf(),
                engine.tau == old(engine).tau,
                g0 == old(engine).grid,
                width == g0.width,
                height == g0.height,
                1 <= y < height - 1,
                width >= 2,
                0 <= col <= 2,
                engine.grid.width == width,
                engine.grid.height == height,
                engine.grid.f_new == g0.f_new,
                engine.grid.rho == g0.rho,
                engine.grid.ux == g0.ux,
                engine.grid.uy == g0.uy,
                engine.grid.dye == g0.dye,
                engine.grid.solid == g0.solid,
                forall|x: int, y2: int, i: int|
                    0 <= x < width && 0 <= y2 < height && 0 <= i < Q ==> #[trigger] engine.grid.f_at(x, y2, i)
                        == if in_inlet(height as int, x, y2) && (y2 < y || (y2 == y && x < col)) { inflow@[i] } else { g0.f_at(x, y2, i) },
            decreases 2 - col,
        {
            engine.grid.set_lane(col, y, inflow);
            col += 1;
        }
        y += 1;
    }
}

/// Turns cell `(x, y)` into a wall holding the distribution `rest`.
pub fn paint_wall<T: Copy>(engine: &mut LbmEngine<T>, x: usize, y: usize, rest: [T; Q])
    requires
        old(engine).wf(),
        x < old(engine).grid.width,
        y < old(engine).grid.height,
    ensures
        final(engine).wf(),
        final(engine).tau == old(engine).tau,
        final(engine).grid.width == old(engine).grid.width,
        final(engine).grid.height == old(engine).grid.height,
        flag_cells(final(engine).grid.solid) == flag_cells(old(engine).grid.solid).insert((x as int, y as int), true),
        forall|x2: int, y2: int, i: int|
            0 <= x2 < old(engine).grid.width && 0 <= y2 < old(engine).grid.height && 0 <= i < Q
                ==> #[trigger] final(engine).grid.f_at(x2, y2, i)
                == if x2 == x && y2 == y { rest@[i] } else { old(engine).grid.f_at(x2, y2, i) },
        final(engine).grid.f_new == old(engine).grid.f_new,
        final(engine).grid.rho == old(engine).grid.rho,
        final(engine).grid.ux == old(engine).grid.ux,
        final(engine).grid.uy == old(engine).grid.uy,
        final(engine).grid.dye == old(engine).grid.dye,
{
    engine.grid.set_solid(x, y, true);
    engine.grid.set_lane(x, y, rest);
}

/// Turns cell `(x, y)` back into fluid; its distribution values stay.
pub fn erase_wall<T: Copy>(engine: &mut LbmEngine<T>, x: usize, y: usize)
    requires
        old(engine).wf(),
        x < old(engine).grid.width,
        y < old(engine).grid.height,
    ensures
        final(engine).wf(),
        final(engine).tau == old(engine).tau,
        final(engine).grid.width == old(engine).grid.width,
        final(engine).grid.height == old(engine).grid.height,
        flag_cells(final(engine).grid.solid) == flag_cells(old(engine).grid.solid).insert((x as int, y as int), false),
        final(engine).grid.f == old(engine).grid.f,
        final(engine).grid.f_new == old(engine).grid.f_new,
        final(engine).grid.rho == old(engine).grid.rho,
        final(engine).grid.ux == old(engine).grid.ux,
        final(engine).grid.uy == old(engine).grid.uy,
        final(engine).grid.dye == old(engine).grid.dye,
{
    engine.grid.set_solid(x, y, false);
}

/// `after` is `before` after the inlet was reset to `inflow` and one
/// simulation step ran.
pub open spec fn frame_step<T, F: Fn([T; Q]) -> Collision<T>>(
    before: LatticeGrid<T>,
    after: LatticeGrid<T>,
    collide: F,
    inflow: [T; Q],
) -> bool {
    exists|forced: LatticeGrid<T>|
        inlet_forced(before, forced, inflow) && #[trigger] ticked(forced, after, collide)
}

/// `after` is `before` after `n` inlet resets, each followed by a step.
pub open spec fn frame_steps<T, F: Fn([T; Q]) -> Collision<T>>(
    before: LatticeGrid<T>,
    after: LatticeGrid<T>,
    n: nat,
    collide: F,
    inflow: [T; Q],
) -> bool
    decreases n,
{
    if n == 0 {
        after == before
    } else {
        exists|mid: LatticeGrid<T>|
            frame_steps(before, mid, (n - 1) as nat, collide, inflow) && #[trigger] frame_step(
                mid,
                after,
                collide,
                inflow,
            )
    }
}

/// The physics of one rendered frame: `PHYSICS_TICKS_PER_FRAME` times, the
/// inlet is reset to `inflow` and the simulation advances one step.
pub fn advance_frame<T: Copy, F: Fn([T; Q]) -> Collision<T>>(
    engine: &mut LbmEngine<T>,
    collide: &F,
    inflow: [T; Q],
)
    requires
        old(engine).wf(),
        inlet_fits(old(engine).grid.width as int, old(engine).grid.height as int),
        forall|lane: [T; Q]| #[trigger] collide.requires((lane,)),
    ensures
        final(engine).wf(),
        final(engine).tau == old(engine).tau,
        final(engine).grid.width == old(engine).grid.width,
        final(engine).grid.height == old(engine).grid.height,
        frame_steps(old(engine).grid, final(engine).grid, PHYSICS_TICKS_PER_FRAME as nat, *collide, inflow),
        frame_steps(old(engine).grid, final(engine).grid, 4, *collide, inflow),
{
    let mut k: u32 = 0;
    while k < PHYSICS_TICKS_PER_FRAME
        invariant
            engine.wf(),
            0 <= k <= PHYSICS_TICKS_PER_FRAME,
            engine.tau == old(engine).tau,
            engine.grid.width == old(engine).grid.width,
            engine.grid.height == old(engine).grid.height,
            inlet_fits(engine.grid.width as int, engine.grid.height as int),
            forall|lane: [T; Q]| #[trigger] collide.requires((lane,)),
            frame_steps(old(engine).grid, engine.grid, k as nat, *collide, inflow),
        decreases PHYSICS_TICKS_PER_FRAME - k,
    {
        let ghost start = engine.grid;
        apply_inlet_forcing(engine, inflow);
        let ghost forced = engine.grid;
        engine.tick(collide);
        proof {
            assert(frame_step(start, engine.grid, *collide, inflow));
            assert(frame_steps(old(engine).grid, engine.grid, (k + 1) as nat, *collide, inflow));
        }
        k += 1;
    }
}

} // verus!
