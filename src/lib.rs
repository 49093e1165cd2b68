//! Lattice Boltzmann (D2Q9) flow around a circular obstacle: the integer
//! side of the solver. The lattice tables, the run configuration, the
//! obstacle mask, push- and pull-model streaming with bounce-back, and the
//! row-block partition of the grid among workers are verified here; the
//! floating-point relaxation runs on top of them.
pub mod lattice;
pub mod grid;
pub mod stream;
pub mod partition;
pub mod buffers;
