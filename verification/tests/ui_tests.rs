use navier_tui::lbm::constants::Q;
use navier_tui::lbm::{Collision, LbmEngine};
use navier_tui::ui::input::{handle_event, initial_grid_size, Action, Button, InputEvent, KeyInput, MouseAction, PointerState};
use navier_tui::ui::{advance_frame, apply_inlet_forcing, erase_wall, paint_wall, PHYSICS_TICKS_PER_FRAME};

fn numbered_engine(width: usize, height: usize) -> LbmEngine<i64> {
    let mut engine = LbmEngine::new(width, height, 0, 0, 1, [0; Q]);
    for k in 0..engine.grid.f.len() {
        engine.grid.f[k] = k as i64;
    }
    engine
}

const INFLOW: [i64; Q] = [-1, -2, -3, -4, -5, -6, -7, -8, -9];

#[test]
fn inlet_resets_two_left_columns_inside_the_rows() {
    let (w, h) = (5, 4);
    let mut engine = numbered_engine(w, h);
    let before = engine.grid.f.clone();
    apply_inlet_forcing(&mut engine, INFLOW);
    for x in 0..w {
        for y in 0..h {
            for i in 0..Q {
                let k = engine.grid.slot_index(x, y, i);
                let inlet = x < 2 && y >= 1 && y < h - 1;
                assert_eq!(engine.grid.f[k], if inlet { INFLOW[i] } else { before[k] });
            }
        }
    }
}

#[test]
fn inlet_of_a_flat_lattice_is_empty() {
    let mut engine = numbered_engine(1, 2);
    let before = engine.grid.f.clone();
    apply_inlet_forcing(&mut engine, INFLOW);
    assert_eq!(engine.grid.f, before);
}

#[test]
fn painting_and_erasing_walls() {
    let mut engine = numbered_engine(4, 4);
    let before = engine.grid.f.clone();
    let rest = [7; Q];
    paint_wall(&mut engine, 2, 1, rest);
    assert!(engine.grid.is_solid(2, 1));
    for x in 0..4 {
        for y in 0..4 {
            for i in 0..Q {
                let k = engine.grid.slot_index(x, y, i);
                assert_eq!(engine.grid.f[k], if (x, y) == (2, 1) { 7 } else { before[k] });
            }
        }
    }
    let painted = engine.grid.f.clone();
    erase_wall(&mut engine, 2, 1);
    assert!(!engine.grid.is_solid(2, 1));
    assert_eq!(engine.grid.f, painted);
}

fn keep(f: [i64; Q]) -> Collision<i64> {
    Collision { f, rho: 1, ux: 0, uy: 0 }
}

#[test]
fn a_frame_runs_four_forced_steps() {
    let mut engine = numbered_engine(6, 5);
    let mut expected = numbered_engine(6, 5);
    for _ in 0..PHYSICS_TICKS_PER_FRAME {
        apply_inlet_forcing(&mut expected, INFLOW);
        expected.tick(&keep);
    }
    advance_frame(&mut engine, &keep, INFLOW);
    assert_eq!(PHYSICS_TICKS_PER_FRAME, 4);
    assert_eq!(engine.grid.f, expected.grid.f);
    assert_eq!(engine.grid.f_new, expected.grid.f_new);
}

#[test]
fn start_up_size_fills_the_window() {
    assert_eq!(initial_grid_size(80, 24), (78, 22));
    assert_eq!(initial_grid_size(12, 12), (10, 10));
    assert_eq!(initial_grid_size(5, 1), (10, 10));
    assert_eq!(initial_grid_size(0, 200), (10, 198));
}

#[test]
fn quit_keys() {
    let s = PointerState::new();
    assert_eq!(handle_event(s, InputEvent::Key(KeyInput::Char('q')), 10, 10), (s, Action::Quit));
    assert_eq!(handle_event(s, InputEvent::Key(KeyInput::Esc), 10, 10), (s, Action::Quit));
    assert_eq!(handle_event(s, InputEvent::Key(KeyInput::Char('Q')), 10, 10), (s, Action::Continue));
    assert_eq!(handle_event(s, InputEvent::Key(KeyInput::Other), 10, 10), (s, Action::Continue));
    assert_eq!(handle_event(s, InputEvent::Other, 10, 10), (s, Action::Continue));
}

fn mouse(action: MouseAction, column: u16, row: u16) -> InputEvent {
    InputEvent::Mouse { action, column, row }
}

#[test]
fn drawing_and_erasing_with_the_mouse() {
    let s = PointerState::new();
    let (s, a) = handle_event(s, mouse(MouseAction::Down(Button::Left), 3, 4), 10, 10);
    assert!(s.drawing_wall && !s.erasing_wall);
    assert_eq!(a, Action::PaintWall { x: 2, y: 3 });
    let (s, a) = handle_event(s, mouse(MouseAction::Drag(Button::Left), 4, 4), 10, 10);
    assert_eq!(a, Action::PaintWall { x: 3, y: 3 });
    let (s, a) = handle_event(s, mouse(MouseAction::Up(Button::Left), 4, 4), 10, 10);
    assert!(!s.drawing_wall);
    assert_eq!(a, Action::Continue);
    let (s, a) = handle_event(s, mouse(MouseAction::Down(Button::Right), 0, 0), 10, 10);
    assert!(s.erasing_wall);
    assert_eq!(a, Action::EraseWall { x: 0, y: 0 });
    // Outside the lattice nothing happens, but the state still follows the mouse.
    let (s, a) = handle_event(s, mouse(MouseAction::Drag(Button::Right), 11, 2), 10, 10);
    assert!(s.erasing_wall);
    assert_eq!(a, Action::Continue);
    // Drawing wins over erasing.
    let (s, a) = handle_event(s, mouse(MouseAction::Down(Button::Left), 1, 1), 10, 10);
    assert!(s.drawing_wall && s.erasing_wall);
    assert_eq!(a, Action::PaintWall { x: 0, y: 0 });
    let (s, a) = handle_event(s, mouse(MouseAction::Down(Button::Middle), 1, 1), 10, 10);
    assert!(s.drawing_wall && s.erasing_wall);
    assert_eq!(a, Action::PaintWall { x: 0, y: 0 });
    let (s, _) = handle_event(s, mouse(MouseAction::Up(Button::Right), 1, 1), 10, 10);
    assert!(s.drawing_wall && !s.erasing_wall);
}

#[test]
fn resizing_rebuilds_at_the_new_size() {
    let s = PointerState::new();
    assert_eq!(
        handle_event(s, InputEvent::Resize { width: 100, height: 40 }, 10, 10),
        (s, Action::Rebuild { width: 98, height: 38 })
    );
    assert_eq!(
        handle_event(s, InputEvent::Resize { width: 6, height: 40 }, 10, 10),
        (s, Action::Rebuild { width: 4, height: 38 })
    );
    assert_eq!(
        handle_event(s, InputEvent::Resize { width: 7, height: 7 }, 10, 10),
        (s, Action::Rebuild { width: 5, height: 5 })
    );
    assert_eq!(
        handle_event(s, InputEvent::Resize { width: 1, height: 2 }, 10, 10),
        (s, Action::Rebuild { width: 0, height: 0 })
    );
}
