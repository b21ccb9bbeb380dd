//! The mathematical model of a grid and of a batch of writes.
//!
//! A grid is a `Map<Pos, Cell>`; a position outside its domain holds `Empty`.
//! A batch is a `Seq<(Pos, Cell)>`, written in order.

use vstd::prelude::*;
use crate::cell::{Cell, Pos};

verus! {

/// The cell that `grid` holds at `pos`.
pub open spec fn cell_at(grid: Map<Pos, Cell>, pos: Pos) -> Cell {
    if grid.contains_key(pos) {
        grid[pos]
    } else {
        Cell::Empty
    }
}

/// `grid` after `value` is written at `pos`. Writing `Empty` removes the entry.
pub open spec fn store(grid: Map<Pos, Cell>, pos: Pos, value: Cell) -> Map<Pos, Cell> {
    if value == Cell::Empty {
        grid.remove(pos)
    } else {
        grid.insert(pos, value)
    }
}

/// Canonical sparsity: no entry of `grid` holds `Empty`.
pub open spec fn is_sparse(grid: Map<Pos, Cell>) -> bool {
    forall|pos: Pos| #[trigger] grid.contains_key(pos) ==> grid[pos] != Cell::Empty
}

/// Some pair of `pairs` is at `pos`.
pub open spec fn touches(pairs: Seq<(Pos, Cell)>, pos: Pos) -> bool {
    exists|i: int| 0 <= i < pairs.len() && (#[trigger] pairs[i]).0 == pos
}

/// No two pairs of `pairs` are at the same position.
pub open spec fn distinct_positions(pairs: Seq<(Pos, Cell)>) -> bool {
    forall|i: int, j: int|
        0 <= i < j < pairs.len() ==> (#[trigger] pairs[i]).0 != (#[trigger] pairs[j]).0
}


/// `grid` after the pairs of `pairs` are written in order.
pub open spec fn replay(grid: Map<Pos, Cell>, pairs: Seq<(Pos, Cell)>) -> Map<Pos, Cell>
    decreases pairs.len(),
{
    if pairs.len() == 0 {
        grid
    } else {
        store(replay(grid, pairs.drop_last()), pairs.last().0, pairs.last().1)
    }
}

/// The value of the last pair of `pairs` at `pos`; `Empty` if there is none.
pub open spec fn last_write(pairs: Seq<(Pos, Cell)>, pos: Pos) -> Cell
    decreases pairs.len(),
{
    if pairs.len() == 0 {
        Cell::Empty
    } else if pairs.last().0 == pos {
        pairs.last().1
    } else {
        last_write(pairs.drop_last(), pos)
    }
}

/// What has to be written to `grid` to take `pairs` back: each position of
/// `pairs` once, in the order of its first occurrence, with the cell that
/// `grid` holds there.
pub open spec fn snapshot(grid: Map<Pos, Cell>, pairs: Seq<(Pos, Cell)>) -> Seq<(Pos, Cell)>
    decreases pairs.len(),
{
    if pairs.len() == 0 {
        Seq::empty()
    } else {
        let earlier = snapshot(grid, pairs.drop_last());
        let pos = pairs.last().0;
        if touches(pairs.drop_last(), pos) {
            earlier
        } else {
            earlier.push((pos, cell_at(grid, pos)))
        }
    }
}

/// A batch touches a position either with its last pair or before it.
pub proof fn lemma_touches_unfolds(pairs: Seq<(Pos, Cell)>, pos: Pos)
    requires
        pairs.len() > 0,
    ensures
        touches(pairs, pos) <==> (pairs.last().0 == pos || touches(pairs.drop_last(), pos)),
{
    let front = pairs.drop_last();
    if touches(pairs, pos) {
        let i = choose|i: int| 0 <= i < pairs.len() && (#[trigger] pairs[i]).0 == pos;
        if i < pairs.len() - 1 {
            assert(front[i].0 == pos);
        }
    }
    if touches(front, pos) {
        let i = choose|i: int| 0 <= i < front.len() && (#[trigger] front[i]).0 == pos;
        assert(pairs[i].0 == pos);
    }
    if pairs.last().0 == pos {
        assert(pairs[pairs.len() - 1].0 == pos);
    }
}

/// Two sparse grids that hold the same cell at every position are one grid.
pub proof fn lemma_sparse_grids_are_extensional(a: Map<Pos, Cell>, b: Map<Pos, Cell>)
    requires
        is_sparse(a),
        is_sparse(b),
        forall|pos: Pos| cell_at(a, pos) == cell_at(b, pos),
    ensures
        a == b,
{
    assert forall|pos: Pos| a.contains_key(pos) == b.contains_key(pos) && (a.contains_key(pos)
        ==> a[pos] == b[pos]) by {
        assert(cell_at(a, pos) == cell_at(b, pos));
    }
    assert(a =~= b);
}

/// Writing keeps a grid sparse.
pub proof fn lemma_store_keeps_sparse(grid: Map<Pos, Cell>, pos: Pos, value: Cell)
    requires
        is_sparse(grid),
    ensures
        is_sparse(store(grid, pos, value)),
        cell_at(store(grid, pos, value), pos) == value,
        forall|other: Pos| other != pos ==> cell_at(store(grid, pos, value), other) == cell_at(
            grid,
            other,
        ),
{
}

/// Replaying a batch keeps a grid sparse.
pub proof fn lemma_replay_keeps_sparse(grid: Map<Pos, Cell>, pairs: Seq<(Pos, Cell)>)
    requires
        is_sparse(grid),
    ensures
        is_sparse(replay(grid, pairs)),
    decreases pairs.len(),
{
    if pairs.len() > 0 {
        lemma_replay_keeps_sparse(grid, pairs.drop_last());
        lemma_store_keeps_sparse(replay(grid, pairs.drop_last()), pairs.last().0, pairs.last().1);
    }
}

/// Last write wins: after a batch, a position that it touches holds the value
/// of the last pair there, and every other position holds what it held.
pub proof fn lemma_replay_is_last_write_wins(
    grid: Map<Pos, Cell>,
    pairs: Seq<(Pos, Cell)>,
    pos: Pos,
)
    ensures
        touches(pairs, pos) ==> cell_at(replay(grid, pairs), pos) == last_write(pairs, pos),
        !touches(pairs, pos) ==> cell_at(replay(grid, pairs), pos) == cell_at(grid, pos),
        !touches(pairs, pos) ==> last_write(pairs, pos) == Cell::Empty,
    decreases pairs.len(),
{
    if pairs.len() > 0 {
        lemma_replay_is_last_write_wins(grid, pairs.drop_last(), pos);
        lemma_touches_unfolds(pairs, pos);
    }
}

/// Replayed on an empty grid, a sequence of writes leaves at every position
/// what an associative map with last-write-wins would hold there, and `Empty`
/// at a position that was never written.
pub proof fn lemma_replay_matches_reference_map(pairs: Seq<(Pos, Cell)>, pos: Pos)
    ensures
        cell_at(replay(Map::empty(), pairs), pos) == last_write(pairs, pos),
        !touches(pairs, pos) ==> cell_at(replay(Map::empty(), pairs), pos) == Cell::Empty,
        is_sparse(replay(Map::empty(), pairs)),
{
    lemma_replay_is_last_write_wins(Map::empty(), pairs, pos);
    lemma_replay_keeps_sparse(Map::empty(), pairs);
}

/// The pair that stands last at its position is the one that `last_write` reads.
pub proof fn lemma_last_write_is_last_pair(pairs: Seq<(Pos, Cell)>, last: int)
    requires
        0 <= last < pairs.len(),
        forall|k: int| last < k < pairs.len() ==> (#[trigger] pairs[k]).0 != pairs[last].0,
    ensures
        last_write(pairs, pairs[last].0) == pairs[last].1,
    decreases pairs.len(),
{
    if last < pairs.len() - 1 {
        let front = pairs.drop_last();
        assert(pairs[pairs.len() - 1].0 != pairs[last].0);
        assert forall|k: int| last < k < front.len() implies (#[trigger] front[k]).0
            != front[last].0 by {
            assert(pairs[k].0 != pairs[last].0);
        }
        lemma_last_write_is_last_pair(front, last);
    }
}


/// What a snapshot holds: every position of the batch, each once, beside the
/// cell that the grid held there before any pair of the batch was written.
pub proof fn lemma_snapshot_captures_prior_cells(grid: Map<Pos, Cell>, pairs: Seq<(Pos, Cell)>)
    ensures
        distinct_positions(snapshot(grid, pairs)),
        snapshot(grid, pairs).len() <= pairs.len(),
        forall|pos: Pos| touches(snapshot(grid, pairs), pos) <==> touches(pairs, pos),
        forall|k: int|
            0 <= k < snapshot(grid, pairs).len() ==> (#[trigger] snapshot(grid, pairs)[k]).1
                == cell_at(grid, snapshot(grid, pairs)[k].0),
    decreases pairs.len(),
{
    let taken = snapshot(grid, pairs);
    if pairs.len() > 0 {
        let front = pairs.drop_last();
        let earlier = snapshot(grid, front);
        let pos = pairs.last().0;
        lemma_snapshot_captures_prior_cells(grid, front);
        lemma_touches_unfolds(pairs, pos);
        if touches(front, pos) {
            assert forall|p: Pos| touches(taken, p) <==> touches(pairs, p) by {
                lemma_touches_unfolds(pairs, p);
            }
        } else {
            assert(taken == earlier.push((pos, cell_at(grid, pos))));
            assert(taken.drop_last() =~= earlier);
            assert forall|p: Pos| touches(taken, p) <==> touches(pairs, p) by {
                lemma_touches_unfolds(pairs, p);
                lemma_touches_unfolds(taken, p);
            }
            assert forall|i: int, j: int| 0 <= i < j < taken.len() implies (#[trigger] taken[i]).0
                != (#[trigger] taken[j]).0 by {
                if j == taken.len() - 1 {
                    assert(earlier[i].0 == taken[i].0);
                    if taken[i].0 == pos {
                        assert(touches(earlier, pos));
                    }
                } else {
                    assert(earlier[i] == taken[i]);
                    assert(earlier[j] == taken[j]);
                }
            }
            assert forall|k: int| 0 <= k < taken.len() implies (#[trigger] taken[k]).1 == cell_at(
                grid,
                taken[k].0,
            ) by {
                if k < taken.len() - 1 {
                    assert(earlier[k] == taken[k]);
                }
            }
        }
    } else {
        assert forall|pos: Pos| touches(taken, pos) <==> touches(pairs, pos) by {}
    }
}

/// Batch tie-break: where several pairs of one batch are at the same
/// position, the last of them decides what the grid holds afterwards, and
/// the snapshot holds for that position what the grid held before the first
/// of them was written, not a value in between.
pub proof fn lemma_later_pair_wins(grid: Map<Pos, Cell>, pairs: Seq<(Pos, Cell)>, last: int)
    requires
        0 <= last < pairs.len(),
        forall|k: int| last < k < pairs.len() ==> (#[trigger] pairs[k]).0 != pairs[last].0,
    ensures
        cell_at(replay(grid, pairs), pairs[last].0) == pairs[last].1,
        touches(snapshot(grid, pairs), pairs[last].0),
        forall|k: int|
            0 <= k < snapshot(grid, pairs).len() && (#[trigger] snapshot(grid, pairs)[k]).0
                == pairs[last].0 ==> snapshot(grid, pairs)[k].1 == cell_at(grid, pairs[last].0),
{
    lemma_last_write_is_last_pair(pairs, last);
    assert(touches(pairs, pairs[last].0));
    lemma_replay_is_last_write_wins(grid, pairs, pairs[last].0);
    lemma_snapshot_captures_prior_cells(grid, pairs);
}

/// In a batch with distinct positions every pair is the last at its position.
pub proof fn lemma_distinct_pairs_are_last(pairs: Seq<(Pos, Cell)>, i: int)
    requires
        distinct_positions(pairs),
        0 <= i < pairs.len(),
    ensures
        last_write(pairs, pairs[i].0) == pairs[i].1,
{
    lemma_last_write_is_last_pair(pairs, i);
}

/// The inverse law for batches: replaying the snapshot of a batch after the
/// batch gives back the grid as it was.
pub proof fn lemma_snapshot_undoes_replay(grid: Map<Pos, Cell>, pairs: Seq<(Pos, Cell)>)
    requires
        is_sparse(grid),
    ensures
        replay(replay(grid, pairs), snapshot(grid, pairs)) == grid,
{
    let changed = replay(grid, pairs);
    let taken = snapshot(grid, pairs);
    let restored = replay(changed, taken);
    lemma_replay_keeps_sparse(grid, pairs);
    lemma_replay_keeps_sparse(changed, taken);
    lemma_snapshot_captures_prior_cells(grid, pairs);
    assert forall|pos: Pos| cell_at(restored, pos) == cell_at(grid, pos) by {
        lemma_replay_is_last_write_wins(changed, taken, pos);
        lemma_replay_is_last_write_wins(grid, pairs, pos);
        if touches(taken, pos) {
            let k = choose|k: int| 0 <= k < taken.len() && (#[trigger] taken[k]).0 == pos;
            lemma_distinct_pairs_are_last(taken, k);
        }
    }
    lemma_sparse_grids_are_extensional(restored, grid);
}

/// The snapshot of a batch with distinct positions has the positions of the
/// batch, pair by pair.
pub proof fn lemma_snapshot_of_distinct_pairs(grid: Map<Pos, Cell>, pairs: Seq<(Pos, Cell)>)
    requires
        distinct_positions(pairs),
    ensures
        snapshot(grid, pairs).len() == pairs.len(),
        forall|k: int|
            0 <= k < pairs.len() ==> #[trigger] snapshot(grid, pairs)[k] == (
                pairs[k].0,
                cell_at(grid, pairs[k].0),
            ),
    decreases pairs.len(),
{
    if pairs.len() > 0 {
        let front = pairs.drop_last();
        let pos = pairs.last().0;
        assert forall|i: int, j: int| 0 <= i < j < front.len() implies (#[trigger] front[i]).0 != (
        #[trigger] front[j]).0 by {
            assert(pairs[i].0 != pairs[j].0);
        }
        lemma_snapshot_of_distinct_pairs(grid, front);
        if touches(front, pos) {
            let i = choose|i: int| 0 <= i < front.len() && (#[trigger] front[i]).0 == pos;
            assert(pairs[i].0 != pairs[pairs.len() - 1].0);
        }
        let earlier = snapshot(grid, front);
        let taken = snapshot(grid, pairs);
        assert(taken == earlier.push((pos, cell_at(grid, pos))));
        assert forall|k: int| 0 <= k < pairs.len() implies #[trigger] taken[k] == (
            pairs[k].0,
            cell_at(grid, pairs[k].0),
        ) by {
            if k < pairs.len() - 1 {
                assert(taken[k] == earlier[k]);
                assert(front[k] == pairs[k]);
            }
        }
    }
}

/// The snapshot of a snapshot: taken on the changed grid, the snapshot of what
/// undoes a batch with distinct positions is that batch again.
pub proof fn lemma_snapshot_of_snapshot_is_batch(grid: Map<Pos, Cell>, pairs: Seq<(Pos, Cell)>)
    requires
        distinct_positions(pairs),
    ensures
        snapshot(replay(grid, pairs), snapshot(grid, pairs)) == pairs,
{
    let changed = replay(grid, pairs);
    let taken = snapshot(grid, pairs);
    let again = snapshot(changed, taken);
    lemma_snapshot_of_distinct_pairs(grid, pairs);
    lemma_snapshot_captures_prior_cells(grid, pairs);
    lemma_snapshot_of_distinct_pairs(changed, taken);
    assert forall|k: int| 0 <= k < pairs.len() implies again[k] == pairs[k] by {
        assert(taken[k].0 == pairs[k].0);
        assert(again[k] == (taken[k].0, cell_at(changed, taken[k].0)));
        assert(touches(pairs, pairs[k].0));
        lemma_replay_is_last_write_wins(grid, pairs, pairs[k].0);
        lemma_distinct_pairs_are_last(pairs, k);
    }
    assert(again =~= pairs);
}

} // verus!
