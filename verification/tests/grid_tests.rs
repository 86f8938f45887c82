use navier_tui::lbm::constants::{C_X, C_Y, OPPOSITE, Q};
use navier_tui::lbm::grid::{fits, LatticeGrid};
use navier_tui::lbm::wrap_step;

#[test]
fn opposite_reverses_every_direction() {
    for i in 0..Q {
        assert_eq!(OPPOSITE[OPPOSITE[i]], i);
        assert_eq!(C_X[OPPOSITE[i]], -C_X[i]);
        assert_eq!(C_Y[OPPOSITE[i]], -C_Y[i]);
        assert_eq!(OPPOSITE[i] == i, i == 0);
    }
}

#[test]
fn velocities_are_distinct() {
    for i in 0..Q {
        for j in 0..Q {
            if i != j {
                assert!(C_X[i] != C_X[j] || C_Y[i] != C_Y[j]);
            }
        }
    }
}

#[test]
fn wrap_step_is_periodic() {
    assert_eq!(wrap_step(0, 1, 5), 4);
    assert_eq!(wrap_step(3, 1, 5), 2);
    assert_eq!(wrap_step(4, -1, 5), 0);
    assert_eq!(wrap_step(2, -1, 5), 3);
    assert_eq!(wrap_step(2, 0, 5), 2);
    assert_eq!(wrap_step(0, 1, 1), 0);
    assert_eq!(wrap_step(0, -1, 1), 0);
}

#[test]
fn layout_is_row_major() {
    let g: LatticeGrid<u8> = LatticeGrid::new(3, 4, 0, 1);
    assert_eq!(g.cell_index(0, 0), 0);
    assert_eq!(g.cell_index(0, 3), 3);
    assert_eq!(g.cell_index(2, 1), 9);
    assert_eq!(g.slot_index(2, 1, 5), 9 * Q + 5);
    assert_eq!(g.slot_index(2, 3, 8), 3 * 4 * Q - 1);
}

#[test]
fn new_grid_is_filled() {
    let g: LatticeGrid<i32> = LatticeGrid::new(4, 2, 0, 1);
    assert_eq!(g.f, vec![0; 4 * 2 * Q]);
    assert_eq!(g.f_new, vec![0; 4 * 2 * Q]);
    assert_eq!(g.rho, vec![1; 8]);
    assert_eq!(g.ux, vec![0; 8]);
    assert_eq!(g.uy, vec![0; 8]);
    assert_eq!(g.dye, vec![0; 8]);
    for x in 0..4 {
        for y in 0..2 {
            assert!(!g.is_solid(x, y));
        }
    }
}

#[test]
fn solid_flags_are_set_one_at_a_time() {
    let mut g: LatticeGrid<i32> = LatticeGrid::new(3, 3, 0, 1);
    g.set_solid(1, 2, true);
    for x in 0..3 {
        for y in 0..3 {
            assert_eq!(g.is_solid(x, y), (x, y) == (1, 2));
        }
    }
    g.set_solid(0, 0, true);
    g.set_solid(1, 2, false);
    for x in 0..3 {
        for y in 0..3 {
            assert_eq!(g.is_solid(x, y), (x, y) == (0, 0));
        }
    }
}

#[test]
fn set_lane_touches_one_cell() {
    let mut g: LatticeGrid<i32> = LatticeGrid::new(3, 2, 0, 1);
    let lane = [1, 2, 3, 4, 5, 6, 7, 8, 9];
    g.set_lane(2, 0, lane);
    for x in 0..3 {
        for y in 0..2 {
            for i in 0..Q {
                let v = g.f[g.slot_index(x, y, i)];
                assert_eq!(v, if (x, y) == (2, 0) { lane[i] } else { 0 });
            }
        }
    }
    assert_eq!(g.f_new, vec![0; 3 * 2 * Q]);
}

#[test]
fn shape_limits() {
    assert!(fits(120, 60));
    assert!(fits(0, 0));
    assert!(fits(0, usize::MAX / 32));
    assert!(!fits(usize::MAX, 2));
    assert!(!fits(usize::MAX / 4, usize::MAX / 4));
    assert!(!fits(isize::MAX as usize / 8, 2));
    assert!(fits(isize::MAX as usize / 9, 1));
    assert!(!fits(isize::MAX as usize / 9 + 1, 1));
}
