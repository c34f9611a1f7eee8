//! A cell of the automaton: a single binary Alive/Dead state value.

use vstd::prelude::*;

verus! {

/// The two states a cell can be in.
#[derive(Clone, Copy, PartialEq, Eq, Structural, Debug)]
pub enum CellState {
    Dead,
    Alive,
}

/// One cell of the grid. An immutable value type: copied, never shared.
#[derive(Clone, Copy, PartialEq, Eq, Structural, Debug)]
pub struct Cell {
    pub state: CellState,
}

impl Cell {
    /// Whether this cell is alive.
    pub open spec fn is_living(self) -> bool {
        self.state == CellState::Alive
    }

    /// Whether this cell is alive.
    pub fn living(&self) -> (r: bool)
        ensures
            r == self.is_living(),
    {
        self.state == CellState::Alive
    }
}

/// The number of living cells in a sequence of cells.
pub open spec fn count_living(s: Seq<Cell>) -> int
    decreases s.len(),
{
    if s.len() == 0 {
        0
    } else {
        count_living(s.drop_last()) + if s.last().is_living() {
            1int
        } else {
            0int
        }
    }
}

/// The living count of a sequence is between 0 and its length.
pub proof fn lemma_count_living_bounds(s: Seq<Cell>)
    ensures
        0 <= count_living(s) <= s.len(),
    decreases s.len(),
{
    if s.len() > 0 {
        lemma_count_living_bounds(s.drop_last());
    }
}

/// A sequence with no living cell has living count zero.
pub proof fn lemma_count_living_all_dead(s: Seq<Cell>)
    requires
        forall|k: int| 0 <= k < s.len() ==> !(#[trigger] s[k]).is_living(),
    ensures
        count_living(s) == 0,
    decreases s.len(),
{
    if s.len() > 0 {
        lemma_count_living_all_dead(s.drop_last());
    }
}

/// The number of living cells among the elements of `cells`.
pub fn count_living_cells(cells: &Vec<Cell>) -> (n: usize)
    ensures
        n == count_living(cells@),
{
    let mut n: usize = 0;
    let mut i: usize = 0;
    while i < cells.len()
        invariant
            0 <= i <= cells@.len(),
            n == count_living(cells@.take(i as int)),
            n <= i,
        decreases cells@.len() - i,
    {
        proof {
            lemma_count_living_bounds(cells@.take(i as int));
            assert(cells@.take(i + 1).drop_last() =~= cells@.take(i as int));
            assert(cells@.take(i + 1).last() == cells@[i as int]);
        }
        if cells[i].living() {
            n = n + 1;
        }
        i = i + 1;
    }
    proof {
        assert(cells@.take(cells@.len() as int) =~= cells@);
    }
    n
}

} // verus!
