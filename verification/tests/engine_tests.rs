use navier_tui::lbm::constants::{C_X, C_Y, OPPOSITE, Q};
use navier_tui::lbm::{Collision, LbmEngine};

const W: [f64; Q] = [
    4.0 / 9.0,
    1.0 / 9.0,
    1.0 / 9.0,
    1.0 / 9.0,
    1.0 / 9.0,
    1.0 / 36.0,
    1.0 / 36.0,
    1.0 / 36.0,
    1.0 / 36.0,
];

fn equilibrium(rho: f64, ux: f64, uy: f64, i: usize) -> f64 {
    let cu = (C_X[i] as f64) * ux + (C_Y[i] as f64) * uy;
    let u2 = ux * ux + uy * uy;
    W[i] * rho * (1.0 + 3.0 * cu + 4.5 * cu * cu - 1.5 * u2)
}

fn rest_lane() -> [f64; Q] {
    let mut lane = [0.0; Q];
    for i in 0..Q {
        lane[i] = equilibrium(1.0, 0.0, 0.0, i);
    }
    lane
}

fn bgk(omega: f64) -> impl Fn([f64; Q]) -> Collision<f64> {
    move |f: [f64; Q]| {
        let mut rho = 0.0;
        let mut ux = 0.0;
        let mut uy = 0.0;
        for i in 0..Q {
            rho += f[i];
            ux += f[i] * C_X[i] as f64;
            uy += f[i] * C_Y[i] as f64;
        }
        if rho > 0.0 {
            ux /= rho;
            uy /= rho;
        }
        let mut out = f;
        for i in 0..Q {
            out[i] = f[i] * (1.0 - omega) + equilibrium(rho, ux, uy, i) * omega;
        }
        Collision { f: out, rho, ux, uy }
    }
}

fn new_engine(width: usize, height: usize, tau: f64) -> LbmEngine<f64> {
    LbmEngine::new(width, height, tau, 0.0, 1.0, rest_lane())
}

fn sum(v: &[f64]) -> f64 {
    v.iter().sum()
}

/// Tests conservation of mass over one step.
#[test]
fn test_mass_conservation() {
    let width = 20;
    let height = 20;
    let mut engine = new_engine(width, height, 0.6);

    let k1 = engine.grid.slot_index(10, 10, 1);
    let k5 = engine.grid.slot_index(10, 10, 5);
    engine.grid.f[k1] += 0.5;
    engine.grid.f[k5] += 0.3;

    let initial_mass: f64 = sum(&engine.grid.f);

    let omega = 1.0 / engine.tau;
    engine.tick(&bgk(omega));

    let final_mass: f64 = sum(&engine.grid.f);

    let epsilon = 1e-10;
    assert!(
        (initial_mass - final_mass).abs() < epsilon,
        "Mass violated! Started with {}, got {} after 1 loop tick.",
        initial_mass,
        final_mass
    );
}

#[test]
fn new_engine_is_fluid_at_rest() {
    let engine = new_engine(6, 4, 0.6);
    assert_eq!(engine.grid.width, 6);
    assert_eq!(engine.grid.height, 4);
    assert_eq!(engine.tau, 0.6);
    assert_eq!(engine.grid.f.len(), 6 * 4 * Q);
    assert_eq!(engine.grid.f_new.len(), 6 * 4 * Q);
    assert_eq!(engine.grid.rho.len(), 24);
    let rest = rest_lane();
    for x in 0..6 {
        for y in 0..4 {
            assert!(!engine.grid.is_solid(x, y));
            for i in 0..Q {
                let k = engine.grid.slot_index(x, y, i);
                assert_eq!(engine.grid.f[k], rest[i]);
                assert_eq!(engine.grid.f_new[k], rest[i]);
            }
            let c = engine.grid.cell_index(x, y);
            assert_eq!(engine.grid.rho[c], 1.0);
            assert_eq!(engine.grid.ux[c], 0.0);
            assert_eq!(engine.grid.uy[c], 0.0);
            assert_eq!(engine.grid.dye[c], 0.0);
        }
    }
    assert!((sum(&rest) - 1.0).abs() < 1e-15);
}

#[test]
fn rest_state_is_a_fixed_point() {
    let mut engine = new_engine(8, 5, 0.6);
    let before = engine.grid.f.clone();
    engine.tick(&bgk(1.0 / 0.6));
    for k in 0..before.len() {
        assert!((engine.grid.f[k] - before[k]).abs() < 1e-15);
    }
}

#[test]
fn collision_sets_moments_of_fluid_cells_only() {
    let mut engine = new_engine(5, 5, 0.6);
    engine.grid.set_solid(2, 2, true);
    let k = engine.grid.slot_index(1, 1, 1);
    engine.grid.f[k] += 0.9;
    let wall_lane: Vec<f64> = (0..Q).map(|i| engine.grid.f[engine.grid.slot_index(2, 2, i)]).collect();
    let wall_cell = engine.grid.cell_index(2, 2);
    engine.grid.rho[wall_cell] = 7.0;
    engine.collide(&bgk(1.0 / 0.6));
    let c = engine.grid.cell_index(1, 1);
    assert!((engine.grid.rho[c] - 1.9).abs() < 1e-12);
    assert!((engine.grid.ux[c] - 0.9 / 1.9).abs() < 1e-12);
    assert_eq!(engine.grid.uy[c], 0.0);
    // The wall cell keeps its values and its density.
    for i in 0..Q {
        assert_eq!(engine.grid.f[engine.grid.slot_index(2, 2, i)], wall_lane[i]);
    }
    assert_eq!(engine.grid.rho[engine.grid.cell_index(2, 2)], 7.0);
}

/// A collision operator that leaves the distributions as they are and
/// reports fixed moments.
fn keep(f: [i64; Q]) -> Collision<i64> {
    Collision { f, rho: 1, ux: 2, uy: 3 }
}

fn numbered_engine(width: usize, height: usize) -> LbmEngine<i64> {
    let mut engine = LbmEngine::new(width, height, 0, 0, 1, [0; Q]);
    for k in 0..engine.grid.f.len() {
        engine.grid.f[k] = k as i64;
    }
    engine
}

fn wrap(v: i64, n: usize) -> usize {
    v.rem_euclid(n as i64) as usize
}

#[test]
fn free_streaming_translates_periodically() {
    let (w, h) = (5, 4);
    let mut engine = numbered_engine(w, h);
    let before = engine.grid.f.clone();
    engine.stream();
    for x in 0..w {
        for y in 0..h {
            for i in 0..Q {
                let sx = wrap(x as i64 - C_X[i] as i64, w);
                let sy = wrap(y as i64 - C_Y[i] as i64, h);
                let k = engine.grid.slot_index(x, y, i);
                assert_eq!(engine.grid.f[k], before[engine.grid.slot_index(sx, sy, i)]);
            }
        }
    }
    // The second buffer holds the values from before the pass.
    assert_eq!(engine.grid.f_new, before);
}

#[test]
fn streaming_wraps_around_the_edges() {
    let mut engine = numbered_engine(3, 3);
    let before = engine.grid.f.clone();
    engine.stream();
    // East-moving value at x = 0 comes from x = 2; north-moving at y = 0 from y = 2.
    assert_eq!(engine.grid.f[engine.grid.slot_index(0, 1, 1)], before[engine.grid.slot_index(2, 1, 1)]);
    assert_eq!(engine.grid.f[engine.grid.slot_index(1, 0, 2)], before[engine.grid.slot_index(1, 2, 2)]);
    // South-west-moving value at (2, 2) comes from (0, 0).
    assert_eq!(engine.grid.f[engine.grid.slot_index(2, 2, 7)], before[engine.grid.slot_index(0, 0, 7)]);
}

#[test]
fn bounce_back_at_walls() {
    let (w, h) = (6, 5);
    let mut engine = numbered_engine(w, h);
    engine.grid.set_solid(3, 2, true);
    let before = engine.grid.f.clone();
    engine.stream();
    // A wall cell reverses all its directions.
    for i in 0..Q {
        assert_eq!(
            engine.grid.f[engine.grid.slot_index(3, 2, i)],
            before[engine.grid.slot_index(3, 2, OPPOSITE[i])]
        );
    }
    // The fluid cell west of the wall gets its east-moving value bounced back
    // into the west direction.
    assert_eq!(
        engine.grid.f[engine.grid.slot_index(2, 2, 3)],
        before[engine.grid.slot_index(2, 2, 1)]
    );
    // Its east-moving value still comes from its west neighbour.
    assert_eq!(
        engine.grid.f[engine.grid.slot_index(2, 2, 1)],
        before[engine.grid.slot_index(1, 2, 1)]
    );
}

#[test]
fn streaming_is_a_permutation() {
    let mut engine = numbered_engine(7, 6);
    for (x, y) in [(1, 1), (1, 2), (4, 4), (6, 0), (0, 5)] {
        engine.grid.set_solid(x, y, true);
    }
    let mut before = engine.grid.f.clone();
    engine.stream();
    let mut after = engine.grid.f.clone();
    before.sort();
    after.sort();
    assert_eq!(before, after);
}

#[test]
fn two_passes_restore_a_wall_cell() {
    let mut engine = numbered_engine(4, 4);
    engine.grid.set_solid(1, 1, true);
    let before = engine.grid.f.clone();
    engine.stream();
    engine.stream();
    for i in 0..Q {
        let k = engine.grid.slot_index(1, 1, i);
        assert_eq!(engine.grid.f[k], before[k]);
    }
}

#[test]
fn tick_applies_collision_then_streaming() {
    let mut engine = numbered_engine(4, 3);
    engine.grid.set_solid(0, 0, true);
    let mut expected = numbered_engine(4, 3);
    expected.grid.set_solid(0, 0, true);
    expected.stream();
    engine.tick(&keep);
    assert_eq!(engine.grid.f, expected.grid.f);
    for x in 0..4 {
        for y in 0..3 {
            let c = engine.grid.cell_index(x, y);
            if (x, y) == (0, 0) {
                assert_eq!((engine.grid.rho[c], engine.grid.ux[c], engine.grid.uy[c]), (1, 0, 0));
            } else {
                assert_eq!((engine.grid.rho[c], engine.grid.ux[c], engine.grid.uy[c]), (1, 2, 3));
            }
        }
    }
}

#[test]
fn tick_on_degenerate_lattices() {
    let mut engine = numbered_engine(1, 1);
    let before = engine.grid.f.clone();
    engine.tick(&keep);
    // On a single periodic cell every value streams back into its own slot.
    assert_eq!(engine.grid.f, before);
    let mut empty = numbered_engine(0, 3);
    empty.tick(&keep);
    assert!(empty.grid.f.is_empty());
}

/// Moves mass between directions within the cell but keeps its total.
fn shuffle(f: [i64; Q]) -> Collision<i64> {
    let mut out = f;
    out.rotate_left(1);
    out[0] += 3;
    out[4] -= 3;
    let rho: i64 = f.iter().sum();
    Collision { f: out, rho, ux: 0, uy: 0 }
}

#[test]
fn tick_keeps_mass_when_collision_does() {
    let mut engine = numbered_engine(6, 5);
    for (x, y) in [(2, 2), (2, 3), (5, 0)] {
        engine.grid.set_solid(x, y, true);
    }
    let initial: i64 = engine.grid.f.iter().sum();
    for _ in 0..5 {
        engine.tick(&shuffle);
        let mass: i64 = engine.grid.f.iter().sum();
        assert_eq!(mass, initial);
    }
}

#[test]
fn tick_moves_the_collided_values() {
    let mut engine = numbered_engine(5, 4);
    engine.grid.set_solid(1, 3, true);
    engine.tick(&shuffle);
    let mut now = engine.grid.f.clone();
    let mut collided = engine.grid.f_new.clone();
    now.sort();
    collided.sort();
    assert_eq!(now, collided);
}

#[test]
fn tick_reverses_wall_cells() {
    let mut engine = numbered_engine(4, 4);
    engine.grid.set_solid(2, 1, true);
    let before = engine.grid.f.clone();
    engine.tick(&shuffle);
    assert!(engine.grid.is_solid(2, 1));
    for i in 0..Q {
        assert_eq!(
            engine.grid.f[engine.grid.slot_index(2, 1, i)],
            before[engine.grid.slot_index(2, 1, OPPOSITE[i])]
        );
    }
}

#[test]
fn rest_state_is_steady_with_walls() {
    let lane = [4, 1, 1, 1, 1, 2, 2, 2, 2];
    let mut engine: LbmEngine<i64> = LbmEngine::new(6, 5, 0, 0, 1, lane);
    for (x, y) in [(0, 0), (3, 2), (3, 3), (5, 4)] {
        engine.grid.set_solid(x, y, true);
    }
    let before = engine.grid.f.clone();
    engine.stream();
    assert_eq!(engine.grid.f, before);
}

/// `a` shifted cyclically by `(dx, dy)` in every array and flag.
fn shifted_copy(a: &LbmEngine<i64>, dx: usize, dy: usize) -> LbmEngine<i64> {
    let (w, h) = (a.grid.width, a.grid.height);
    let mut b = LbmEngine::new(w, h, a.tau, 0, 0, [0; Q]);
    for x in 0..w {
        for y in 0..h {
            let (sx, sy) = ((x + dx) % w, (y + dy) % h);
            for i in 0..Q {
                let (ka, kb) = (a.grid.slot_index(x, y, i), b.grid.slot_index(sx, sy, i));
                b.grid.f[kb] = a.grid.f[ka];
                b.grid.f_new[kb] = a.grid.f_new[ka];
            }
            let (ca, cb) = (a.grid.cell_index(x, y), b.grid.cell_index(sx, sy));
            b.grid.rho[cb] = a.grid.rho[ca];
            b.grid.ux[cb] = a.grid.ux[ca];
            b.grid.uy[cb] = a.grid.uy[ca];
            b.grid.dye[cb] = a.grid.dye[ca];
            b.grid.set_solid(sx, sy, a.grid.is_solid(x, y));
        }
    }
    b
}

fn same_state(a: &LbmEngine<i64>, b: &LbmEngine<i64>) -> bool {
    let flags_agree = (0..a.grid.width)
        .all(|x| (0..a.grid.height).all(|y| a.grid.is_solid(x, y) == b.grid.is_solid(x, y)));
    a.grid.f == b.grid.f
        && a.grid.f_new == b.grid.f_new
        && a.grid.rho == b.grid.rho
        && a.grid.ux == b.grid.ux
        && a.grid.uy == b.grid.uy
        && a.grid.dye == b.grid.dye
        && flags_agree
}

#[test]
fn tick_commutes_with_a_periodic_shift() {
    let mut a = numbered_engine(6, 5);
    for (x, y) in [(0, 0), (2, 3), (5, 4), (3, 3)] {
        a.grid.set_solid(x, y, true);
    }
    for (dx, dy) in [(1, 0), (0, 1), (5, 4), (3, 2)] {
        let mut a1 = numbered_engine(6, 5);
        a1.grid = shifted_copy(&a, 0, 0).grid;
        let mut b = shifted_copy(&a, dx, dy);
        a1.tick(&shuffle);
        b.tick(&shuffle);
        assert!(same_state(&shifted_copy(&a1, dx, dy), &b));
    }
}

#[test]
fn tick_is_deterministic() {
    let mut a = new_engine(12, 9, 0.6);
    let mut b = new_engine(12, 9, 0.6);
    for e in [&mut a, &mut b] {
        let k = e.grid.slot_index(4, 4, 5);
        e.grid.f[k] += 0.25;
        e.grid.set_solid(7, 2, true);
    }
    for _ in 0..3 {
        a.tick(&bgk(1.0 / 0.6));
        b.tick(&bgk(1.0 / 0.6));
    }
    assert_eq!(a.grid.f, b.grid.f);
    assert_eq!(a.grid.f_new, b.grid.f_new);
    assert_eq!(a.grid.rho, b.grid.rho);
    assert_eq!(a.grid.ux, b.grid.ux);
    assert_eq!(a.grid.uy, b.grid.uy);
}

/// Moves one particle from east and one from west into rest: keeps the
/// cell's mass and momentum.
fn thermalize(f: [i64; Q]) -> Collision<i64> {
    let mut out = f;
    out[1] -= 1;
    out[3] -= 1;
    out[0] += 2;
    let rho: i64 = f.iter().sum();
    Collision { f: out, rho, ux: 0, uy: 0 }
}

fn momentum(e: &LbmEngine<i64>) -> (i64, i64) {
    let mut m = (0, 0);
    for k in 0..e.grid.f.len() {
        m.0 += C_X[k % Q] as i64 * e.grid.f[k];
        m.1 += C_Y[k % Q] as i64 * e.grid.f[k];
    }
    m
}

#[test]
fn tick_keeps_momentum_without_walls() {
    let mut engine = numbered_engine(5, 4);
    let m0 = momentum(&engine);
    let mass0: i64 = engine.grid.f.iter().sum();
    for _ in 0..4 {
        engine.tick(&thermalize);
        assert_eq!(momentum(&engine), m0);
        assert_eq!(engine.grid.f.iter().sum::<i64>(), mass0);
    }
}

fn mass_on(e: &LbmEngine<i64>, walls: bool) -> i64 {
    let mut total = 0;
    for x in 0..e.grid.width {
        for y in 0..e.grid.height {
            if e.grid.is_solid(x, y) == walls {
                for i in 0..Q {
                    total += e.grid.f[e.grid.slot_index(x, y, i)];
                }
            }
        }
    }
    total
}

#[test]
fn walls_and_fluid_keep_their_mass() {
    let mut engine = numbered_engine(6, 5);
    for (x, y) in [(1, 1), (1, 2), (4, 3), (5, 0)] {
        engine.grid.set_solid(x, y, true);
    }
    let (walls0, fluid0) = (mass_on(&engine, true), mass_on(&engine, false));
    for _ in 0..4 {
        engine.tick(&shuffle);
        assert_eq!(mass_on(&engine, true), walls0);
        assert_eq!(mass_on(&engine, false), fluid0);
    }
}
