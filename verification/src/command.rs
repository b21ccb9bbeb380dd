//! Commands: reversible batch mutations of a grid.
//!
//! Each kind of command says two things: how it is applied to a grid, and
//! which command takes it back. The controller needs no more of a command.

use vstd::prelude::*;
use crate::cell::{Cell, Pos};
use crate::grid::{copy_pairs, Grid};
use crate::model::{distinct_positions, is_sparse, replay, snapshot, touches};
use crate::model::lemma_snapshot_captures_prior_cells;

verus! {

/// A reversible mutation of the grid.
#[derive(Debug)]
pub enum Command {
    /// Writes the pairs in order, so that a later pair at a position
    /// overrides an earlier one.
    SetCells(Vec<(Pos, Cell)>),
}

/// What a command is in contracts.
pub enum CommandView {
    SetCells(Seq<(Pos, Cell)>),
}

impl View for Command {
    type V = CommandView;

    open spec fn view(&self) -> CommandView {
        match self {
            Command::SetCells(pairs) => CommandView::SetCells(pairs@),
        }
    }
}

impl CommandView {
    /// The grid after the command.
    pub open spec fn apply(self, grid: Map<Pos, Cell>) -> Map<Pos, Cell> {
        match self {
            CommandView::SetCells(pairs) => replay(grid, pairs),
        }
    }

    /// The command that takes this one back, computed on the grid as it is
    /// before this one is applied.
    pub open spec fn inverse(self, grid: Map<Pos, Cell>) -> CommandView {
        match self {
            CommandView::SetCells(pairs) => CommandView::SetCells(snapshot(grid, pairs)),
        }
    }

    /// The command names no position twice. Every inverse is of this form.
    pub open spec fn is_reduced(self) -> bool {
        match self {
            CommandView::SetCells(pairs) => distinct_positions(pairs),
        }
    }
}

/// Whether one of the pairs is at `pos`.
fn holds_position(pairs: &Vec<(Pos, Cell)>, pos: Pos) -> (held: bool)
    ensures
        held == touches(pairs@, pos),
{
    let count: usize = pairs.len();
    let mut i: usize = 0;
    while i < count
        invariant
            i <= count,
            count == pairs.len(),
            forall|k: int| 0 <= k < i ==> (#[trigger] pairs[k]).0 != pos,
        decreases count - i,
    {
        if pairs[i].0 == pos {
            assert(pairs@[i as int].0 == pos);
            return true;
        }
        i = i + 1;
    }
    false
}

/// The pairs that take a batch back: for each position of `pairs`, at its
/// first occurrence, the cell that `grid` holds there now.
fn set_cells_inverse(grid: &Grid, pairs: &Vec<(Pos, Cell)>) -> (taken: Vec<(Pos, Cell)>)
    ensures
        taken@ == snapshot(grid@, pairs@),
{
    let count: usize = pairs.len();
    let mut taken: Vec<(Pos, Cell)> = Vec::new();
    let mut i: usize = 0;
    while i < count
        invariant
            i <= count,
            count == pairs.len(),
            taken@ == snapshot(grid@, pairs@.take(i as int)),
        decreases count - i,
    {
        let pos: Pos = pairs[i].0;
        let seen: bool = holds_position(&taken, pos);
        let ghost front = pairs@.take(i as int);
        let ghost next = pairs@.take(i + 1);
        proof {
            assert(next.drop_last() =~= front);
            assert(next.last() == pairs@[i as int]);
            lemma_snapshot_captures_prior_cells(grid@, front);
        }
        if !seen {
            let cell: Cell = grid.get(pos);
            taken.push((pos, cell));
        }
        i = i + 1;
    }
    assert(pairs@.take(count as int) =~= pairs@);
    taken
}

/// Writes the pairs to the grid in order.
fn set_cells_apply(grid: &mut Grid, pairs: &Vec<(Pos, Cell)>)
    ensures
        final(grid)@ == replay(old(grid)@, pairs@),
        is_sparse(final(grid)@),
{
    proof {
        use_type_invariant(&*grid);
        grid.lemma_well_formed_is_sparse();
    }
    let count: usize = pairs.len();
    let mut i: usize = 0;
    while i < count
        invariant
            i <= count,
            count == pairs.len(),
            grid@ == replay(old(grid)@, pairs@.take(i as int)),
            is_sparse(grid@),
        decreases count - i,
    {
        let pair: (Pos, Cell) = pairs[i];
        proof {
            assert(pairs@.take(i + 1).drop_last() =~= pairs@.take(i as int));
            assert(pairs@.take(i + 1).last() == pairs@[i as int]);
        }
        grid.set(pair.0, pair.1);
        i = i + 1;
    }
    assert(pairs@.take(count as int) =~= pairs@);
}

/// Computes the command that takes `command` back, on the grid as it is
/// before `command` is applied. For `SetCells` it holds each position of the
/// command once, in the order of first occurrence, beside the cell that the
/// grid holds there now.
pub fn compute_inverse(grid: &Grid, command: &Command) -> (inverse: Command)
    ensures
        inverse@ == command@.inverse(grid@),
        inverse@.is_reduced(),
{
    match command {
        Command::SetCells(pairs) => {
            proof {
                lemma_snapshot_captures_prior_cells(grid@, pairs@);
            }
            Command::SetCells(set_cells_inverse(grid, pairs))
        },
    }
}

/// Applies `command` to the grid, in full.
pub fn apply(grid: &mut Grid, command: &Command)
    ensures
        final(grid)@ == command@.apply(old(grid)@),
        is_sparse(final(grid)@),
{
    match command {
        Command::SetCells(pairs) => set_cells_apply(grid, pairs),
    }
}

impl Clone for Command {
    /// An independent copy that holds the same pairs in the same order.
    fn clone(&self) -> (copy: Command)
        ensures
            copy@ == self@,
    {
        match self {
            Command::SetCells(pairs) => Command::SetCells(copy_pairs(pairs)),
        }
    }
}

} // verus!
