//! The executable grid: a canonically sparse store from positions to cells.
//!
//! The entries are kept in one vector, strictly ordered by position, and none
//! of them holds `Empty`. A grid therefore has exactly one representation,
//! lookups are binary searches, and two grids hold the same cells exactly
//! when their vectors are equal.

use vstd::prelude::*;
use crate::cell::{Cell, Pos};
use crate::model::{cell_at, is_sparse, store, touches};

verus! {

/// The entries are strictly ordered by position.
pub open spec fn ordered(entries: Seq<(Pos, Cell)>) -> bool {
    forall|i: int, j: int|
        0 <= i < j < entries.len() ==> (#[trigger] entries[i]).0.precedes(
            (#[trigger] entries[j]).0,
        )
}

/// No entry holds `Empty`.
pub open spec fn all_filled(entries: Seq<(Pos, Cell)>) -> bool {
    forall|i: int| 0 <= i < entries.len() ==> (#[trigger] entries[i]).1 != Cell::Empty
}

/// An index of `entries` at which `pos` stands, if there is one.
spec fn index_of(entries: Seq<(Pos, Cell)>, pos: Pos) -> int {
    choose|i: int| 0 <= i < entries.len() && (#[trigger] entries[i]).0 == pos
}

/// The map that a vector of entries stands for.
spec fn entries_map(entries: Seq<(Pos, Cell)>) -> Map<Pos, Cell> {
    Map::new(|pos: Pos| touches(entries, pos), |pos: Pos| entries[index_of(entries, pos)].1)
}

/// In an ordered vector each position stands at one index only, so the map
/// holds at that position the cell stored beside it.
proof fn lemma_entry_is_mapped(entries: Seq<(Pos, Cell)>, i: int)
    requires
        ordered(entries),
        0 <= i < entries.len(),
    ensures
        touches(entries, entries[i].0),
        index_of(entries, entries[i].0) == i,
        entries_map(entries).contains_key(entries[i].0),
        entries_map(entries)[entries[i].0] == entries[i].1,
{
    let pos = entries[i].0;
    assert(touches(entries, pos));
    let j = index_of(entries, pos);
    assert(entries[j].0 == pos);
    if j < i {
        assert(entries[j].0.precedes(entries[i].0));
    } else if i < j {
        assert(entries[i].0.precedes(entries[j].0));
    }
}

/// A position that an ordered vector passes over is not in its map.
proof fn lemma_gap_is_unmapped(entries: Seq<(Pos, Cell)>, at: int, pos: Pos)
    requires
        0 <= at <= entries.len(),
        forall|k: int| 0 <= k < at ==> (#[trigger] entries[k]).0.precedes(pos),
        forall|k: int| at <= k < entries.len() ==> pos.precedes((#[trigger] entries[k]).0),
    ensures
        !touches(entries, pos),
        !entries_map(entries).contains_key(pos),
{
    if touches(entries, pos) {
        let j = index_of(entries, pos);
        assert(entries[j].0 == pos);
        if j < at {
            assert(entries[j].0.precedes(pos));
        } else {
            assert(pos.precedes(entries[j].0));
        }
    }
}

/// The map of ordered, filled entries is sparse.
proof fn lemma_filled_entries_are_sparse(entries: Seq<(Pos, Cell)>)
    requires
        all_filled(entries),
    ensures
        is_sparse(entries_map(entries)),
{
    let map = entries_map(entries);
    assert forall|pos: Pos| #[trigger] map.contains_key(pos) implies map[pos] != Cell::Empty by {
        let j = index_of(entries, pos);
        assert(entries[j].0 == pos);
    }
}

/// Putting a new position into its gap writes it into the map.
proof fn lemma_insert_entry(entries: Seq<(Pos, Cell)>, at: int, entry: (Pos, Cell))
    requires
        ordered(entries),
        0 <= at <= entries.len(),
        forall|k: int| 0 <= k < at ==> (#[trigger] entries[k]).0.precedes(entry.0),
        forall|k: int| at <= k < entries.len() ==> entry.0.precedes((#[trigger] entries[k]).0),
    ensures
        ordered(entries.insert(at, entry)),
        entries_map(entries.insert(at, entry)) == entries_map(entries).insert(entry.0, entry.1),
{
    let grown = entries.insert(at, entry);
    assert(grown.len() == entries.len() + 1);
    assert(grown[at] == entry);
    assert forall|k: int| 0 <= k < at implies #[trigger] grown[k] == entries[k] by {}
    assert forall|k: int| at < k < grown.len() implies #[trigger] grown[k] == entries[k - 1] by {}
    assert forall|i: int, j: int| 0 <= i < j < grown.len() implies (#[trigger] grown[i]).0.precedes(
        (#[trigger] grown[j]).0,
    ) by {
        let a = if i < at { entries[i] } else if i == at { entry } else { entries[i - 1] };
        let b = if j < at { entries[j] } else if j == at { entry } else { entries[j - 1] };
        assert(grown[i] == a);
        assert(grown[j] == b);
    }
    let before = entries_map(entries);
    let after = entries_map(grown);
    let expected = before.insert(entry.0, entry.1);
    lemma_entry_is_mapped(grown, at);
    assert forall|pos: Pos| after.contains_key(pos) implies #[trigger] expected.contains_key(
        pos,
    ) by {
        let k = index_of(grown, pos);
        assert(grown[k].0 == pos);
        if k < at {
            assert(entries[k].0 == pos);
        } else if k > at {
            assert(entries[k - 1].0 == pos);
        }
    }
    assert forall|pos: Pos| #[trigger] expected.contains_key(pos) implies after.contains_key(pos)
        && after[pos] == expected[pos] by {
        if pos != entry.0 {
            let k = index_of(entries, pos);
            assert(entries[k].0 == pos);
            lemma_entry_is_mapped(entries, k);
            let moved = if k < at { k } else { k + 1 };
            assert(grown[moved] == entries[k]);
            lemma_entry_is_mapped(grown, moved);
        }
    }
    assert(after =~= expected);
}

/// Replacing the cell beside a position overwrites it in the map.
proof fn lemma_update_entry(entries: Seq<(Pos, Cell)>, at: int, entry: (Pos, Cell))
    requires
        ordered(entries),
        0 <= at < entries.len(),
        entries[at].0 == entry.0,
    ensures
        ordered(entries.update(at, entry)),
        entries_map(entries.update(at, entry)) == entries_map(entries).insert(entry.0, entry.1),
{
    let changed = entries.update(at, entry);
    assert forall|i: int, j: int|
        0 <= i < j < changed.len() implies (#[trigger] changed[i]).0.precedes(
        (#[trigger] changed[j]).0,
    ) by {
        assert(changed[i].0 == entries[i].0);
        assert(changed[j].0 == entries[j].0);
    }
    let before = entries_map(entries);
    let after = entries_map(changed);
    let expected = before.insert(entry.0, entry.1);
    lemma_entry_is_mapped(changed, at);
    assert forall|pos: Pos| after.contains_key(pos) implies #[trigger] expected.contains_key(
        pos,
    ) by {
        let k = index_of(changed, pos);
        assert(changed[k].0 == pos);
        assert(entries[k].0 == pos);
    }
    assert forall|pos: Pos| #[trigger] expected.contains_key(pos) implies after.contains_key(pos)
        && after[pos] == expected[pos] by {
        if pos != entry.0 {
            let k = index_of(entries, pos);
            assert(entries[k].0 == pos);
            lemma_entry_is_mapped(entries, k);
            assert(changed[k] == entries[k]);
            lemma_entry_is_mapped(changed, k);
        }
    }
    assert(after =~= expected);
}

/// Taking an entry out removes its position from the map.
proof fn lemma_remove_entry(entries: Seq<(Pos, Cell)>, at: int)
    requires
        ordered(entries),
        0 <= at < entries.len(),
    ensures
        ordered(entries.remove(at)),
        entries_map(entries.remove(at)) == entries_map(entries).remove(entries[at].0),
{
    let shrunk = entries.remove(at);
    assert(shrunk.len() == entries.len() - 1);
    assert forall|k: int| 0 <= k < at implies #[trigger] shrunk[k] == entries[k] by {}
    assert forall|k: int| at <= k < shrunk.len() implies #[trigger] shrunk[k] == entries[k + 1] by {}
    assert forall|i: int, j: int|
        0 <= i < j < shrunk.len() implies (#[trigger] shrunk[i]).0.precedes(
        (#[trigger] shrunk[j]).0,
    ) by {
        let a = if i < at { entries[i] } else { entries[i + 1] };
        let b = if j < at { entries[j] } else { entries[j + 1] };
        assert(shrunk[i] == a);
        assert(shrunk[j] == b);
    }
    let gone = entries[at].0;
    let before = entries_map(entries);
    let after = entries_map(shrunk);
    let expected = before.remove(gone);
    assert forall|pos: Pos| after.contains_key(pos) implies #[trigger] expected.contains_key(
        pos,
    ) by {
        let k = index_of(shrunk, pos);
        assert(shrunk[k].0 == pos);
        let origin = if k < at { k } else { k + 1 };
        assert(entries[origin].0 == pos);
        if origin < at {
            assert(entries[origin].0.precedes(entries[at].0));
        } else {
            assert(entries[at].0.precedes(entries[origin].0));
        }
    }
    assert forall|pos: Pos| #[trigger] expected.contains_key(pos) implies after.contains_key(pos)
        && after[pos] == expected[pos] by {
        let k = index_of(entries, pos);
        assert(entries[k].0 == pos);
        lemma_entry_is_mapped(entries, k);
        let moved = if k < at { k } else { k - 1 };
        assert(shrunk[moved] == entries[k]);
        lemma_entry_is_mapped(shrunk, moved);
    }
    assert(after =~= expected);
}

/// Two ordered vectors with the same map agree on every index of the first.
proof fn lemma_prefixes_agree(a: Seq<(Pos, Cell)>, b: Seq<(Pos, Cell)>, upto: int)
    requires
        ordered(a),
        ordered(b),
        entries_map(a) == entries_map(b),
        0 <= upto <= a.len(),
    ensures
        upto <= b.len(),
        forall|i: int| 0 <= i < upto ==> a[i] == b[i],
    decreases upto,
{
    if upto > 0 {
        let last = upto - 1;
        lemma_prefixes_agree(a, b, last);
        let pos = a[last].0;
        lemma_entry_is_mapped(a, last);
        assert(entries_map(b).contains_key(pos));
        let j = index_of(b, pos);
        assert(b[j].0 == pos);
        if j < last {
            assert(a[j] == b[j]);
            assert(a[j].0.precedes(a[last].0));
        } else if j > last {
            let other = b[last].0;
            lemma_entry_is_mapped(b, last);
            assert(entries_map(a).contains_key(other));
            let i = index_of(a, other);
            assert(a[i].0 == other);
            assert(b[last].0.precedes(b[j].0));
            if i < last {
                assert(a[i] == b[i]);
                assert(b[i].0.precedes(b[last].0));
            } else if i > last {
                assert(a[last].0.precedes(a[i].0));
            }
        }
        assert(j == last);
        lemma_entry_is_mapped(b, last);
        assert(a[last].1 == b[last].1);
        assert(a[last] == b[last]);
    }
}

/// A map has one ordered vector of entries only.
proof fn lemma_ordered_entries_are_canonical(a: Seq<(Pos, Cell)>, b: Seq<(Pos, Cell)>)
    requires
        ordered(a),
        ordered(b),
    ensures
        entries_map(a) == entries_map(b) <==> a == b,
{
    if entries_map(a) == entries_map(b) {
        lemma_prefixes_agree(a, b, a.len() as int);
        lemma_prefixes_agree(b, a, b.len() as int);
        assert(a =~= b);
    }
}

/// Finds `pos` among ordered entries: `Ok` with its index, or `Err` with
/// the index of the gap where it belongs.
fn locate(entries: &Vec<(Pos, Cell)>, pos: Pos) -> (found: Result<usize, usize>)
    requires
        ordered(entries@),
    ensures
        match found {
            Ok(at) => at < entries.len() && entries[at as int].0 == pos,
            Err(at) => {
                &&& at <= entries.len()
                &&& forall|k: int| 0 <= k < at ==> (#[trigger] entries[k]).0.precedes(pos)
                &&& forall|k: int|
                    at <= k < entries.len() ==> pos.precedes((#[trigger] entries[k]).0)
            },
        },
{
    let mut low: usize = 0;
    let mut high: usize = entries.len();
    while low < high
        invariant
            low <= high <= entries.len(),
            ordered(entries@),
            forall|k: int| 0 <= k < low ==> (#[trigger] entries[k]).0.precedes(pos),
            forall|k: int| high <= k < entries.len() ==> pos.precedes((#[trigger] entries[k]).0),
        decreases high - low,
    {
        let middle: usize = low + (high - low) / 2;
        let here: Pos = entries[middle].0;
        if here == pos {
            return Ok(middle);
        } else if here.is_before(&pos) {
            assert forall|k: int| 0 <= k < middle + 1 implies (#[trigger] entries[k]).0.precedes(
                pos,
            ) by {
                if k < middle {
                    assert(entries[k].0.precedes(entries[middle as int].0));
                }
            }
            low = middle + 1;
        } else {
            assert(pos.precedes(here)) by {
                crate::cell::lemma_precedes_is_total(here, pos);
            }
            assert forall|k: int| middle <= k < entries.len() implies pos.precedes(
                (#[trigger] entries[k]).0,
            ) by {
                if middle < k {
                    assert(entries[middle as int].0.precedes(entries[k].0));
                }
            }
            high = middle;
        }
    }
    Err(low)
}

/// Decides whether a vector of entries is a valid representation: strictly
/// ordered, with no `Empty` stored. One pass over the entries.
pub fn entries_are_valid(entries: &Vec<(Pos, Cell)>) -> (valid: bool)
    ensures
        valid == (ordered(entries@) && all_filled(entries@)),
{
    let count: usize = entries.len();
    let mut i: usize = 0;
    while i < count
        invariant
            i <= count,
            count == entries.len(),
            forall|a: int, b: int|
                0 <= a < b < i ==> (#[trigger] entries[a]).0.precedes((#[trigger] entries[b]).0),
            forall|a: int| 0 <= a < i ==> (#[trigger] entries[a]).1 != Cell::Empty,
        decreases count - i,
    {
        if entries[i].1.is_empty() {
            return false;
        }
        if i > 0 {
            if !entries[i - 1].0.is_before(&entries[i].0) {
                return false;
            }
            assert forall|a: int| 0 <= a < i implies (#[trigger] entries[a]).0.precedes(
                entries[i as int].0,
            ) by {
                if a < i - 1 {
                    assert(entries[a].0.precedes(entries[i - 1].0));
                }
            }
        }
        i = i + 1;
    }
    true
}

/// An independent copy of a vector of pairs, pair for pair.
pub(crate) fn copy_pairs(pairs: &Vec<(Pos, Cell)>) -> (copy: Vec<(Pos, Cell)>)
    ensures
        copy@ == pairs@,
{
    let count: usize = pairs.len();
    let mut copy: Vec<(Pos, Cell)> = Vec::new();
    let mut i: usize = 0;
    while i < count
        invariant
            i <= count,
            count == pairs.len(),
            copy@ == pairs@.take(i as int),
        decreases count - i,
    {
        let pair: (Pos, Cell) = pairs[i];
        copy.push(pair);
        assert(copy@ =~= pairs@.take(i + 1));
        i = i + 1;
    }
    assert(copy@ =~= pairs@);
    copy
}

/// A sparse, unbounded grid of cells.
///
/// Its view is the map from each position that holds something to the cell
/// there. Every other position holds `Empty`.
#[derive(Debug)]
pub struct Grid {
    entries: Vec<(Pos, Cell)>,
}

impl View for Grid {
    type V = Map<Pos, Cell>;

    closed spec fn view(&self) -> Map<Pos, Cell> {
        entries_map(self.entries@)
    }
}

impl Grid {
    /// The representation invariant, which every grid meets at all times.
    #[verifier::type_invariant]
    pub closed spec fn well_formed(&self) -> bool {
        ordered(self.entries@) && all_filled(self.entries@)
    }

    /// Every grid that meets the representation invariant is sparse.
    pub proof fn lemma_well_formed_is_sparse(&self)
        requires
            self.well_formed(),
        ensures
            is_sparse(self@),
    {
        lemma_filled_entries_are_sparse(self.entries@);
    }

    /// An empty grid.
    pub fn new() -> (grid: Grid)
        ensures
            grid@ == Map::<Pos, Cell>::empty(),
            is_sparse(grid@),
    {
        let grid = Grid { entries: Vec::new() };
        assert(grid@ =~= Map::<Pos, Cell>::empty());
        grid
    }

    /// The cell at `pos`; `Empty` where nothing is stored.
    pub fn get(&self, pos: Pos) -> (cell: Cell)
        ensures
            cell == cell_at(self@, pos),
    {
        proof {
            use_type_invariant(self);
        }
        match locate(&self.entries, pos) {
            Ok(at) => {
                proof {
                    lemma_entry_is_mapped(self.entries@, at as int);
                }
                self.entries[at].1
            },
            Err(at) => {
                proof {
                    lemma_gap_is_unmapped(self.entries@, at as int, pos);
                }
                Cell::Empty
            },
        }
    }

    /// Writes `value` at `pos` and returns the cell that was there. Writing
    /// `Empty` removes the entry, so the grid never stores one.
    pub fn set(&mut self, pos: Pos, value: Cell) -> (previous: Cell)
        ensures
            final(self)@ == store(old(self)@, pos, value),
            previous == cell_at(old(self)@, pos),
            is_sparse(final(self)@),
    {
        proof {
            use_type_invariant(&*self);
        }
        let mut entries: Vec<(Pos, Cell)> = Vec::new();
        std::mem::swap(&mut entries, &mut self.entries);
        let ghost before = entries@;
        let previous = match locate(&entries, pos) {
            Ok(at) => {
                let previous = entries[at].1;
                proof {
                    lemma_entry_is_mapped(before, at as int);
                }
                if value.is_empty() {
                    proof {
                        lemma_remove_entry(before, at as int);
                    }
                    entries.remove(at);
                    assert forall|k: int| 0 <= k < entries.len() implies (
                    #[trigger] entries[k]).1 != Cell::Empty by {
                        let origin = if k < at { k } else { k + 1 };
                        assert(entries[k] == before[origin]);
                    }
                } else {
                    proof {
                        lemma_update_entry(before, at as int, (pos, value));
                    }
                    entries.set(at, (pos, value));
                    assert forall|k: int| 0 <= k < entries.len() implies (
                    #[trigger] entries[k]).1 != Cell::Empty by {
                        if k != at {
                            assert(entries[k] == before[k]);
                        }
                    }
                }
                previous
            },
            Err(at) => {
                proof {
                    lemma_gap_is_unmapped(before, at as int, pos);
                }
                if !value.is_empty() {
                    proof {
                        lemma_insert_entry(before, at as int, (pos, value));
                    }
                    entries.insert(at, (pos, value));
                    assert forall|k: int| 0 <= k < entries.len() implies (
                    #[trigger] entries[k]).1 != Cell::Empty by {
                        if k < at {
                            assert(entries[k] == before[k]);
                        } else if k > at {
                            assert(entries[k] == before[k - 1]);
                        }
                    }
                } else {
                    assert(entries_map(before).remove(pos) =~= entries_map(before));
                }
                Cell::Empty
            },
        };
        proof {
            lemma_filled_entries_are_sparse(entries@);
        }
        self.entries = entries;
        previous
    }

    /// Checks the representation: no entry holds `Empty`, and the entries
    /// are strictly ordered, so that no position is stored twice. It holds of
    /// every grid.
    pub fn is_valid(&self) -> (valid: bool)
        ensures
            valid,
            valid == self.well_formed(),
            is_sparse(self@),
    {
        proof {
            use_type_invariant(self);
            lemma_filled_entries_are_sparse(self.entries@);
        }
        entries_are_valid(&self.entries)
    }
}

impl Default for Grid {
    fn default() -> (grid: Grid)
        ensures
            grid@ == Map::<Pos, Cell>::empty(),
            is_sparse(grid@),
    {
        Grid::new()
    }
}

impl Clone for Grid {
    /// An independent copy that holds the same cells.
    fn clone(&self) -> (copy: Grid)
        ensures
            copy@ == self@,
            is_sparse(copy@),
    {
        proof {
            use_type_invariant(self);
            lemma_filled_entries_are_sparse(self.entries@);
        }
        Grid { entries: copy_pairs(&self.entries) }
    }
}

impl PartialEq for Grid {
    /// Two grids are equal when they hold the same cells.
    fn eq(&self, other: &Grid) -> (equal: bool) {
        proof {
            use_type_invariant(self);
            use_type_invariant(other);
            lemma_ordered_entries_are_canonical(self.entries@, other.entries@);
        }
        let count: usize = self.entries.len();
        if other.entries.len() != count {
            return false;
        }
        let mut i: usize = 0;
        while i < count
            invariant
                i <= count,
                count == self.entries.len(),
                count == other.entries.len(),
                forall|k: int| 0 <= k < i ==> self.entries[k] == other.entries[k],
                self@ == other@ <==> self.entries@ == other.entries@,
            decreases count - i,
        {
            let mine: (Pos, Cell) = self.entries[i];
            let theirs: (Pos, Cell) = other.entries[i];
            if mine.0 != theirs.0 || mine.1 != theirs.1 {
                assert(self.entries@[i as int] != other.entries@[i as int]);
                return false;
            }
            i = i + 1;
        }
        assert(self.entries@ =~= other.entries@);
        true
    }
}

impl Eq for Grid {

}

impl vstd::std_specs::cmp::PartialEqSpecImpl for Grid {
    open spec fn obeys_eq_spec() -> bool {
        true
    }

    open spec fn eq_spec(&self, other: &Grid) -> bool {
        self@ == other@
    }
}

} // verus!
