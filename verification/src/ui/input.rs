//! The decisions of the interactive loop, apart from the terminal: how the
//! window size becomes the lattice size, and what each input event does.
//!
//! The application reads the terminal and hands the events over in the
//! library's own terms; it performs the returned action.
use vstd::prelude::*;

verus! {

/// Smallest lattice side used at start-up.
pub const MIN_GRID_SIDE: usize = 10;

/// `v - d`, or 0 when `v < d` (unsigned saturating subtraction).
pub open spec fn minus_or_zero(v: int, d: int) -> int {
    if v >= d { v - d } else { 0 }
}

/// The lattice size for a terminal of `term_width` by `term_height`
/// characters: the area inside the one-character border, and at least
/// `MIN_GRID_SIDE` on each side.
pub fn initial_grid_size(term_width: u16, term_height: u16) -> (r: (usize, usize))
    ensures
        r.0 == if minus_or_zero(term_width as int, 2) >= MIN_GRID_SIDE { minus_or_zero(term_width as int, 2) } else { MIN_GRID_SIDE as int },
        r.1 == if minus_or_zero(term_height as int, 2) >= MIN_GRID_SIDE { minus_or_zero(term_height as int, 2) } else { MIN_GRID_SIDE as int },
        r.0 >= 10 && r.1 >= 10,
        term_width >= 12 ==> r.0 == term_width - 2,
        term_height >= 12 ==> r.1 == term_height - 2,
        term_width < 12 ==> r.0 == 10,
        term_height < 12 ==> r.1 == 10,
{
    let w = term_width.saturating_sub(2) as usize;
    let h = term_height.saturating_sub(2) as usize;
    let w = if w >= MIN_GRID_SIDE { w } else { MIN_GRID_SIDE };
    let h = if h >= MIN_GRID_SIDE { h } else { MIN_GRID_SIDE };
    (w, h)
}

/// A key press.
#[derive(Clone, Copy, PartialEq, Eq, Debug)]
pub enum KeyInput {
    Char(char),
    Esc,
    Other,
}

/// A mouse button.
#[derive(Clone, Copy, PartialEq, Eq, Debug)]
pub enum Button {
    Left,
    Right,
    Middle,
}

/// What the mouse did.
#[derive(Clone, Copy, PartialEq, Eq, Debug)]
pub enum MouseAction {
    Down(Button),
    Up(Button),
    Drag(Button),
    Other,
}

/// An input event of the terminal, positions in terminal characters.
#[derive(Clone, Copy, PartialEq, Eq, Debug)]
pub enum InputEvent {
    Key(KeyInput),
    Mouse { action: MouseAction, column: u16, row: u16 },
    Resize { width: u16, height: u16 },
    Other,
}

/// Whether the user is drawing or erasing walls with the mouse.
#[derive(Clone, Copy, PartialEq, Eq, Debug)]
pub struct PointerState {
    pub drawing_wall: bool,
    pub erasing_wall: bool,
}

/// What the application does in answer to an event.
#[derive(Clone, Copy, PartialEq, Eq, Debug)]
pub enum Action {
    /// Leave the simulation.
    Quit,
    /// Turn lattice cell `(x, y)` into a wall.
    PaintWall { x: usize, y: usize },
    /// Turn lattice cell `(x, y)` back into fluid.
    EraseWall { x: usize, y: usize },
    /// Start a new simulation on a lattice of this size.
    Rebuild { width: usize, height: usize },
    /// Nothing to do.
    Continue,
}

impl PointerState {
    /// Neither drawing nor erasing.
    pub fn new() -> (s: Self)
        ensures
            !s.drawing_wall,
            !s.erasing_wall,
    {
        PointerState { drawing_wall: false, erasing_wall: false }
    }
}

/// The drawing state after a mouse action: pressing or dragging the left
/// button draws, releasing it stops; the right button does the same for
/// erasing; anything else leaves the state as it was.
pub open spec fn pointer_after(s: PointerState, action: MouseAction) -> PointerState {
    match action {
        MouseAction::Down(Button::Left) | MouseAction::Drag(Button::Left) => PointerState { drawing_wall: true, ..s },
        MouseAction::Up(Button::Left) => PointerState { drawing_wall: false, ..s },
        MouseAction::Down(Button::Right) | MouseAction::Drag(Button::Right) => PointerState { erasing_wall: true, ..s },
        MouseAction::Up(Button::Right) => PointerState { erasing_wall: false, ..s },
        _ => s,
    }
}

/// Whether a key ends the simulation: `q` or Escape.
pub open spec fn is_quit_key(k: KeyInput) -> bool {
    k == KeyInput::Char('q') || k == KeyInput::Esc
}

/// The answer to a mouse event at terminal position `(column, row)` once
/// the drawing state is `s`: inside the lattice (after the one-character
/// border), drawing paints a wall, else erasing erases one.
pub open spec fn mouse_action(s: PointerState, column: int, row: int, width: int, height: int) -> Action {
    let x = minus_or_zero(column, 1);
    let y = minus_or_zero(row, 1);
    if x < width && y < height {
        if s.drawing_wall {
            Action::PaintWall { x: x as usize, y: y as usize }
        } else if s.erasing_wall {
            Action::EraseWall { x: x as usize, y: y as usize }
        } else {
            Action::Continue
        }
    } else {
        Action::Continue
    }
}

/// The answer to a resize to `w` by `h` characters: a new lattice that
/// fills the window inside its one-character border.
pub open spec fn resize_action(w: int, h: int) -> Action {
    Action::Rebuild { width: minus_or_zero(w, 2) as usize, height: minus_or_zero(h, 2) as usize }
}

/// The drawing state and action after `event` on a `width` by `height` lattice.
pub fn handle_event(s: PointerState, event: InputEvent, width: usize, height: usize) -> (r: (PointerState, Action))
    ensures
        match event {
            InputEvent::Key(k) => r.0 == s && r.1 == if is_quit_key(k) { Action::Quit } else { Action::Continue },
            InputEvent::Mouse { action, column, row } => {
                &&& r.0 == pointer_after(s, action)
                &&& r.1 == mouse_action(r.0, column as int, row as int, width as int, height as int)
            },
            InputEvent::Resize { width: w, height: h } => r.0 == s && r.1 == resize_action(w as int, h as int),
            InputEvent::Other => r.0 == s && r.1 == Action::Continue,
        },
{
    match event {
        InputEvent::Key(k) => {
            let quit = match k {
                KeyInput::Char(c) => c == 'q',
                KeyInput::Esc => true,
                KeyInput::Other => false,
            };
            (s, if quit { Action::Quit } else { Action::Continue })
        },
        InputEvent::Mouse { action, column, row } => {
            let mut t = s;
            match action {
                MouseAction::Down(Button::Left) => t.drawing_wall = true,
                MouseAction::Up(Button::Left) => t.drawing_wall = false,
                MouseAction::Down(Button::Right) => t.erasing_wall = true,
                MouseAction::Up(Button::Right) => t.erasing_wall = false,
                MouseAction::Drag(Button::Left) => t.drawing_wall = true,
                MouseAction::Drag(Button::Right) => t.erasing_wall = true,
                _ => {},
            }
            let x = column.saturating_sub(1) as usize;
            let y = row.saturating_sub(1) as usize;
            let a = if x < width && y < height {
                if t.drawing_wall {
                    Action::PaintWall { x, y }
                } else if t.erasing_wall {
                    Action::EraseWall { x, y }
                } else {
                    Action::Continue
                }
            } else {
                Action::Continue
            };
            (t, a)
        },
        InputEvent::Resize { width: w, height: h } => {
            let new_w = w.saturating_sub(2) as usize;
            let new_h = h.saturating_sub(2) as usize;
            (s, Action::Rebuild { width: new_w, height: new_h })
        },
        InputEvent::Other => (s, Action::Continue),
    }
}

/// Only `q` and Escape end the simulation: a key event answers `Quit`
/// exactly for those two keys and `Continue` for every other, and never
/// changes the drawing state.
pub proof fn lemma_quit_keys(k: KeyInput)
    ensures
        (k == KeyInput::Char('q') || k == KeyInput::Esc) ==> is_quit_key(k),
        !(k == KeyInput::Char('q') || k == KeyInput::Esc) ==> !is_quit_key(k),
{
}

/// The left button controls drawing and only drawing; the right button
/// controls erasing and only erasing; the middle button and other mouse
/// actions change nothing.
pub proof fn lemma_buttons(s: PointerState)
    ensures
        pointer_after(s, MouseAction::Down(Button::Left)).drawing_wall,
        pointer_after(s, MouseAction::Drag(Button::Left)).drawing_wall,
        !pointer_after(s, MouseAction::Up(Button::Left)).drawing_wall,
        pointer_after(s, MouseAction::Down(Button::Left)).erasing_wall == s.erasing_wall,
        pointer_after(s, MouseAction::Drag(Button::Left)).erasing_wall == s.erasing_wall,
        pointer_after(s, MouseAction::Up(Button::Left)).erasing_wall == s.erasing_wall,
        pointer_after(s, MouseAction::Down(Button::Right)).erasing_wall,
        pointer_after(s, MouseAction::Drag(Button::Right)).erasing_wall,
        !pointer_after(s, MouseAction::Up(Button::Right)).erasing_wall,
        pointer_after(s, MouseAction::Down(Button::Right)).drawing_wall == s.drawing_wall,
        pointer_after(s, MouseAction::Drag(Button::Right)).drawing_wall == s.drawing_wall,
        pointer_after(s, MouseAction::Up(Button::Right)).drawing_wall == s.drawing_wall,
        pointer_after(s, MouseAction::Down(Button::Middle)) == s,
        pointer_after(s, MouseAction::Drag(Button::Middle)) == s,
        pointer_after(s, MouseAction::Up(Button::Middle)) == s,
        pointer_after(s, MouseAction::Other) == s,
{
}

/// A mouse event at terminal position `(column, row)` acts on lattice cell
/// `(column - 1, row - 1)` (0 where the position is on the border): inside
/// the lattice it paints while drawing, else erases while erasing, else does
/// nothing; outside the lattice it does nothing.
pub proof fn lemma_mouse_targets_cell(s: PointerState, column: u16, row: u16, width: usize, height: usize)
    ensures
        ({
            let x: int = if column >= 1 { column - 1 } else { 0 };
            let y: int = if row >= 1 { row - 1 } else { 0 };
            let a = mouse_action(s, column as int, row as int, width as int, height as int);
            &&& x < width && y < height && s.drawing_wall ==> a == (Action::PaintWall { x: x as usize, y: y as usize })
            &&& x < width && y < height && !s.drawing_wall && s.erasing_wall ==> a == (Action::EraseWall { x: x as usize, y: y as usize })
            &&& !(x < width && y < height) ==> a == Action::Continue
            &&& !s.drawing_wall && !s.erasing_wall ==> a == Action::Continue
        }),
{
}

/// Every resize rebuilds the lattice at the window size less the
/// one-character border on each side.
pub proof fn lemma_resize_rebuilds(w: u16, h: u16)
    ensures
        resize_action(w as int, h as int) == (Action::Rebuild {
            width: if w >= 2 { (w - 2) as usize } else { 0 },
            height: if h >= 2 { (h - 2) as usize } else { 0 },
        }),
{
}

} // verus!
