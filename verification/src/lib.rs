//! A two-dimensional fluid simulation with the lattice Boltzmann method
//! (D2Q9 lattice, BGK collision, periodic edges, bounce-back walls),
//! driven from an interactive terminal.
pub mod lbm;
pub mod permutation;
pub mod ui;
