//! The controller: one grid with a linear undo and redo history.

use vstd::prelude::*;
use crate::cell::{Cell, Pos};
use crate::command::{apply, compute_inverse, Command, CommandView};
use crate::grid::Grid;
use crate::model::{is_sparse, lemma_replay_keeps_sparse, lemma_snapshot_captures_prior_cells};
use crate::model::{lemma_snapshot_of_snapshot_is_batch, lemma_snapshot_undoes_replay};

verus! {

/// The state of a controller in contracts: the grid and the two stacks, each
/// with its most recent command last.
pub struct ControllerView {
    pub grid: Map<Pos, Cell>,
    pub undo_stack: Seq<CommandView>,
    pub redo_stack: Seq<CommandView>,
}

impl ControllerView {
    /// A controller as it is created: an empty grid and no history.
    pub open spec fn initial() -> ControllerView {
        ControllerView { grid: Map::empty(), undo_stack: Seq::empty(), redo_stack: Seq::empty() }
    }

    /// What holds of every state that a controller can reach: the grid is
    /// sparse, and every command on the stacks names each position once.
    pub open spec fn well_formed(self) -> bool {
        &&& is_sparse(self.grid)
        &&& forall|i: int|
            0 <= i < self.undo_stack.len() ==> (#[trigger] self.undo_stack[i]).is_reduced()
        &&& forall|i: int|
            0 <= i < self.redo_stack.len() ==> (#[trigger] self.redo_stack[i]).is_reduced()
    }

    pub open spec fn can_undo(self) -> bool {
        self.undo_stack.len() > 0
    }

    pub open spec fn can_redo(self) -> bool {
        self.redo_stack.len() > 0
    }

    /// The state after `command` is executed: the command is applied, its
    /// inverse is pushed on the undo stack, and the redo stack is emptied.
    pub open spec fn execute(self, command: CommandView) -> ControllerView {
        ControllerView {
            grid: command.apply(self.grid),
            undo_stack: self.undo_stack.push(command.inverse(self.grid)),
            redo_stack: Seq::empty(),
        }
    }

    /// The state after an undo. With nothing to undo it is the same state.
    pub open spec fn undo(self) -> ControllerView {
        if self.can_undo() {
            let inverse = self.undo_stack.last();
            ControllerView {
                grid: inverse.apply(self.grid),
                undo_stack: self.undo_stack.drop_last(),
                redo_stack: self.redo_stack.push(inverse.inverse(self.grid)),
            }
        } else {
            self
        }
    }

    /// The state after a redo. With nothing to redo it is the same state.
    pub open spec fn redo(self) -> ControllerView {
        if self.can_redo() {
            let forward = self.redo_stack.last();
            ControllerView {
                grid: forward.apply(self.grid),
                undo_stack: self.undo_stack.push(forward.inverse(self.grid)),
                redo_stack: self.redo_stack.drop_last(),
            }
        } else {
            self
        }
    }
}

/// The inverse of a command is reduced, and applying a command keeps the grid
/// sparse.
pub proof fn lemma_command_steps(grid: Map<Pos, Cell>, command: CommandView)
    requires
        is_sparse(grid),
    ensures
        command.inverse(grid).is_reduced(),
        is_sparse(command.apply(grid)),
        command.inverse(grid).apply(command.apply(grid)) == grid,
        command.is_reduced() ==> command.inverse(grid).inverse(command.apply(grid)) == command,
{
    match command {
        CommandView::SetCells(pairs) => {
            lemma_snapshot_captures_prior_cells(grid, pairs);
            lemma_replay_keeps_sparse(grid, pairs);
            lemma_snapshot_undoes_replay(grid, pairs);
            if command.is_reduced() {
                lemma_snapshot_of_snapshot_is_batch(grid, pairs);
            }
        },
    }
}

/// Every transition leads from a well-formed state to a well-formed state,
/// so the grid of a controller is sparse after any sequence of operations.
pub proof fn law_transitions_keep_well_formed(state: ControllerView, command: CommandView)
    requires
        state.well_formed(),
    ensures
        ControllerView::initial().well_formed(),
        state.execute(command).well_formed(),
        state.undo().well_formed(),
        state.redo().well_formed(),
{
    lemma_command_steps(state.grid, command);
    if state.can_undo() {
        lemma_command_steps(state.grid, state.undo_stack.last());
    }
    if state.can_redo() {
        lemma_command_steps(state.grid, state.redo_stack.last());
    }
}

/// One execution pushes exactly one entry on the undo stack, whatever the
/// command holds, and leaves nothing to redo: a redo right after it changes
/// nothing.
pub proof fn law_execute_clears_redo(state: ControllerView, command: CommandView)
    ensures
        state.execute(command).undo_stack.len() == state.undo_stack.len() + 1,
        state.execute(command).redo_stack.len() == 0,
        !state.execute(command).can_redo(),
        state.execute(command).redo() == state.execute(command),
{
}

/// The inverse law: an undo right after an execution gives back the grid,
/// entry for entry, and the undo stack as they were before the execution.
pub proof fn law_undo_reverts_execute(state: ControllerView, command: CommandView)
    requires
        state.well_formed(),
    ensures
        state.execute(command).can_undo(),
        state.execute(command).undo().grid == state.grid,
        state.execute(command).undo().undo_stack == state.undo_stack,
{
    lemma_command_steps(state.grid, command);
    let executed = state.execute(command);
    assert(executed.undo_stack.last() == command.inverse(state.grid));
    assert(executed.undo_stack.drop_last() =~= state.undo_stack);
}

/// The redo-after-undo law: a redo right after an undo gives back exactly the
/// state before the undo, the grid and both stacks.
pub proof fn law_redo_reverts_undo(state: ControllerView)
    requires
        state.well_formed(),
        state.can_undo(),
    ensures
        state.undo().can_redo(),
        state.undo().redo() == state,
{
    let inverse = state.undo_stack.last();
    lemma_command_steps(state.grid, inverse);
    let undone = state.undo();
    let redone = undone.redo();
    assert(undone.redo_stack.last() == inverse.inverse(state.grid));
    assert(redone.grid == state.grid);
    assert(redone.redo_stack =~= state.redo_stack);
    assert(redone.undo_stack =~= state.undo_stack);
}

/// An undo right after a redo gives back exactly the state before the redo.
pub proof fn law_undo_reverts_redo(state: ControllerView)
    requires
        state.well_formed(),
        state.can_redo(),
    ensures
        state.redo().can_undo(),
        state.redo().undo() == state,
{
    let forward = state.redo_stack.last();
    lemma_command_steps(state.grid, forward);
    let redone = state.redo();
    let undone = redone.undo();
    assert(redone.undo_stack.last() == forward.inverse(state.grid));
    assert(undone.grid == state.grid);
    assert(undone.undo_stack =~= state.undo_stack);
    assert(undone.redo_stack =~= state.redo_stack);
}

/// The exhaustion law: with an empty undo stack an undo changes nothing, and
/// with an empty redo stack a redo changes nothing.
pub proof fn law_exhausted_history_is_inert(state: ControllerView)
    ensures
        !state.can_undo() ==> state.undo() == state,
        !state.can_redo() ==> state.redo() == state,
{
}

/// The views of the commands on a stack.
pub open spec fn stack_view(stack: Seq<Command>) -> Seq<CommandView> {
    Seq::new(stack.len(), |i: int| stack[i]@)
}

/// Every command on the stack names each position once.
pub open spec fn all_reduced(stack: Seq<Command>) -> bool {
    forall|i: int| 0 <= i < stack.len() ==> (#[trigger] stack[i])@.is_reduced()
}

/// Owns one grid and the history of what was done to it.
#[derive(Debug)]
pub struct GridController {
    grid: Grid,
    undo_stack: Vec<Command>,
    redo_stack: Vec<Command>,
}

impl View for GridController {
    type V = ControllerView;

    closed spec fn view(&self) -> ControllerView {
        ControllerView {
            grid: self.grid@,
            undo_stack: stack_view(self.undo_stack@),
            redo_stack: stack_view(self.redo_stack@),
        }
    }
}

/// An independent copy of a stack.
fn clone_stack(stack: &Vec<Command>) -> (copy: Vec<Command>)
    ensures
        stack_view(copy@) == stack_view(stack@),
        all_reduced(stack@) ==> all_reduced(copy@),
{
    let count: usize = stack.len();
    let mut copy: Vec<Command> = Vec::new();
    let mut i: usize = 0;
    while i < count
        invariant
            i <= count,
            count == stack.len(),
            copy.len() == i,
            forall|k: int| 0 <= k < i ==> (#[trigger] copy[k])@ == stack[k]@,
        decreases count - i,
    {
        let command: Command = stack[i].clone();
        copy.push(command);
        i = i + 1;
    }
    assert(stack_view(copy@) =~= stack_view(stack@));
    assert forall|k: int| 0 <= k < copy.len() && all_reduced(stack@) implies (#[trigger] copy@[k])@
        .is_reduced() by {
        assert(copy@[k]@ == stack@[k]@);
    }
    copy
}

/// One step of the history: applies `command` to `grid` and pushes the
/// command that takes it back on `stack`.
fn perform(grid: &mut Grid, command: &Command, stack: &mut Vec<Command>)
    ensures
        final(grid)@ == command@.apply(old(grid)@),
        is_sparse(final(grid)@),
        stack_view(final(stack)@) == stack_view(old(stack)@).push(command@.inverse(old(grid)@)),
        all_reduced(old(stack)@) ==> all_reduced(final(stack)@),
{
    let inverse = compute_inverse(grid, command);
    apply(grid, command);
    stack.push(inverse);
    assert(stack_view(stack@) =~= stack_view(old(stack)@).push(inverse@));
    assert forall|i: int| 0 <= i < stack.len() && all_reduced(old(stack)@) implies (
    #[trigger] stack@[i])@.is_reduced() by {
        if i < old(stack).len() {
            assert(stack@[i] == old(stack)@[i]);
        }
    }
}

/// Undo and redo are one step in two directions: the most recent command of
/// `from` is taken off and applied to `grid`, and the command that takes it
/// back is pushed on `to`. With `from` empty nothing changes.
fn move_over(from: &mut Vec<Command>, grid: &mut Grid, to: &mut Vec<Command>) -> (done: bool)
    ensures
        done == (old(from)@.len() > 0),
        !done ==> final(from)@ == old(from)@ && final(grid)@ == old(grid)@ && final(to)@ == old(
            to,
        )@,
        done ==> {
            let command = stack_view(old(from)@).last();
            &&& stack_view(final(from)@) == stack_view(old(from)@).drop_last()
            &&& final(grid)@ == command.apply(old(grid)@)
            &&& stack_view(final(to)@) == stack_view(old(to)@).push(command.inverse(old(grid)@))
        },
        is_sparse(final(grid)@),
        all_reduced(old(from)@) ==> all_reduced(final(from)@),
        all_reduced(old(to)@) ==> all_reduced(final(to)@),
{
    proof {
        use_type_invariant(&*grid);
        grid.lemma_well_formed_is_sparse();
    }
    match from.pop() {
        None => false,
        Some(command) => {
            proof {
                assert(stack_view(old(from)@).last() == command@);
                assert(stack_view(from@) =~= stack_view(old(from)@).drop_last());
                assert forall|i: int| 0 <= i < from.len() && all_reduced(old(from)@) implies (
                #[trigger] from@[i])@.is_reduced() by {
                    assert(from@[i] == old(from)@[i]);
                }
            }
            perform(grid, &command, to);
            true
        },
    }
}

impl GridController {
    /// What holds of every controller at all times: its state is well
    /// formed.
    #[verifier::type_invariant]
    spec fn is_consistent(&self) -> bool {
        &&& is_sparse(self.grid@)
        &&& all_reduced(self.undo_stack@)
        &&& all_reduced(self.redo_stack@)
    }

    /// A controller with an empty grid and no history.
    pub fn new() -> (controller: GridController)
        ensures
            controller@ == ControllerView::initial(),
            controller@.well_formed(),
    {
        let controller = GridController {
            grid: Grid::new(),
            undo_stack: Vec::new(),
            redo_stack: Vec::new(),
        };
        assert(controller@.undo_stack =~= Seq::empty());
        assert(controller@.redo_stack =~= Seq::empty());
        controller
    }

    /// The grid as it is now.
    pub fn grid(&self) -> (grid: &Grid)
        ensures
            grid@ == self@.grid,
            is_sparse(grid@),
    {
        proof {
            use_type_invariant(self);
        }
        &self.grid
    }

    /// Executes `command`: applies it to the grid, pushes its inverse on the
    /// undo stack, and discards whatever could have been redone.
    pub fn execute(&mut self, command: Command)
        ensures
            final(self)@ == old(self)@.execute(command@),
            final(self)@.well_formed(),
    {
        proof {
            use_type_invariant(&*self);
        }
        let mut grid = Grid::new();
        let mut undo_stack: Vec<Command> = Vec::new();
        std::mem::swap(&mut grid, &mut self.grid);
        std::mem::swap(&mut undo_stack, &mut self.undo_stack);
        perform(&mut grid, &command, &mut undo_stack);
        self.grid = grid;
        self.undo_stack = undo_stack;
        self.redo_stack = Vec::new();
        proof {
            assert(self@.redo_stack =~= old(self)@.execute(command@).redo_stack);
        }
    }

    /// Takes back the most recent command that has not been taken back.
    /// Returns `false`, and changes nothing, when there is none.
    pub fn undo(&mut self) -> (done: bool)
        ensures
            done == old(self)@.can_undo(),
            final(self)@ == old(self)@.undo(),
            !done ==> final(self)@ == old(self)@,
            final(self)@.well_formed(),
    {
        proof {
            use_type_invariant(&*self);
        }
        let mut grid = Grid::new();
        let mut undo_stack: Vec<Command> = Vec::new();
        let mut redo_stack: Vec<Command> = Vec::new();
        std::mem::swap(&mut grid, &mut self.grid);
        std::mem::swap(&mut undo_stack, &mut self.undo_stack);
        std::mem::swap(&mut redo_stack, &mut self.redo_stack);
        let done = move_over(&mut undo_stack, &mut grid, &mut redo_stack);
        self.grid = grid;
        self.undo_stack = undo_stack;
        self.redo_stack = redo_stack;
        done
    }

    /// Does again the command that was taken back last. Returns `false`, and
    /// changes nothing, when there is none.
    pub fn redo(&mut self) -> (done: bool)
        ensures
            done == old(self)@.can_redo(),
            final(self)@ == old(self)@.redo(),
            !done ==> final(self)@ == old(self)@,
            final(self)@.well_formed(),
    {
        proof {
            use_type_invariant(&*self);
        }
        let mut grid = Grid::new();
        let mut undo_stack: Vec<Command> = Vec::new();
        let mut redo_stack: Vec<Command> = Vec::new();
        std::mem::swap(&mut grid, &mut self.grid);
        std::mem::swap(&mut undo_stack, &mut self.undo_stack);
        std::mem::swap(&mut redo_stack, &mut self.redo_stack);
        let done = move_over(&mut redo_stack, &mut grid, &mut undo_stack);
        self.grid = grid;
        self.undo_stack = undo_stack;
        self.redo_stack = redo_stack;
        done
    }

    /// Checks the grid's representation. It holds of every controller.
    pub fn is_valid(&self) -> (valid: bool)
        ensures
            valid,
            self@.well_formed(),
    {
        proof {
            use_type_invariant(self);
        }
        self.grid.is_valid()
    }
}

impl Default for GridController {
    fn default() -> (controller: GridController)
        ensures
            controller@ == ControllerView::initial(),
    {
        GridController::new()
    }
}

impl Clone for GridController {
    /// An independent snapshot: the grid and both stacks are duplicated.
    fn clone(&self) -> (copy: GridController)
        ensures
            copy@ == self@,
    {
        proof {
            use_type_invariant(self);
        }
        let copy = GridController {
            grid: self.grid.clone(),
            undo_stack: clone_stack(&self.undo_stack),
            redo_stack: clone_stack(&self.redo_stack),
        };
        copy
    }
}

impl PartialEq for GridController {
    /// Two controllers are equal when their grids hold the same cells,
    /// whatever their histories.
    fn eq(&self, other: &GridController) -> (equal: bool) {
        self.grid == other.grid
    }
}

impl Eq for GridController {

}

impl vstd::std_specs::cmp::PartialEqSpecImpl for GridController {
    open spec fn obeys_eq_spec() -> bool {
        true
    }

    open spec fn eq_spec(&self, other: &GridController) -> bool {
        self@.grid == other@.grid
    }
}

} // verus!
