# navier_tui

A two-dimensional fluid simulation in the terminal with the lattice
Boltzmann method: a D2Q9 lattice with periodic edges, bounce-back walls
that the user paints with the mouse, an inlet on the left edge, and the BGK
collision operator.

The library under `src/` is verified with Verus:

- `lbm::constants` – the nine lattice velocities and their opposites.
- `lbm::flags` – the solid flags, held in an `ndarray` array.
- `lbm::grid` – the lattice: its layout and its arrays.
- `lbm::stream` – streaming with bounce-back; the proof that it moves every
  value into exactly one slot.
- `lbm::symmetry` – a step is deterministic and commutes with cyclic shifts
  of the lattice.
- `lbm` – the engine: collision pass, streaming pass, step, and the
  conservation laws of a step.
- `permutation` – rearranging a sequence keeps its multiset and totals.
- `ui` – the inlet, painting walls, and the steps of one rendered frame.
- `ui::input` – the decisions on terminal events.

The values on the lattice are of any `Copy` type; the program in `app/`
uses `f64`, supplies the equilibrium distribution and the BGK operator,
and draws the lattice with `ratatui` and `crossterm`.
