//! A sparse, unbounded two-dimensional grid of cell values with a linear,
//! reversible edit history.
//!
//! * [`cell`] holds positions and cell values.
//! * [`model`] is the mathematical model that every contract speaks of: a grid
//!   is a `Map<Pos, Cell>` that stores no `Empty` value, a batch of writes is
//!   a `Seq<(Pos, Cell)>`.
//! * [`grid`] is the executable store.
//! * [`command`] holds the reversible batch mutations.
//! * [`controller`] owns a grid and its undo and redo stacks.
//! * [`trigonometry`] is the catalog of the trigonometric functions that read
//!   cells as numbers.

pub mod cell;
pub mod model;
pub mod grid;
pub mod command;
pub mod controller;
pub mod trigonometry;

pub use crate::cell::{Cell, CellKind, Pos, TypeMismatch};
pub use crate::grid::{entries_are_valid, Grid};
pub use crate::command::{apply, compute_inverse, Command};
pub use crate::controller::GridController;
pub use crate::trigonometry::{find_function, get_functions, FormulaFunction, Primitive, Routine};
