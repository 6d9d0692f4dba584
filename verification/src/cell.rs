use vstd::prelude::*;

verus! {

/// One grid cell: alive or dead, copied by value.
#[derive(Clone, Copy, PartialEq, Eq, Structural, Debug)]
pub struct Cell {
    pub alive: bool,
}

/// 1 for a live cell, 0 for a dead one.
pub open spec fn live_weight(c: Cell) -> int {
    if c.alive {
        1
    } else {
        0
    }
}

/// Number of live cells in a sequence.
pub open spec fn live_count(s: Seq<Cell>) -> int
    decreases s.len(),
{
    if s.len() == 0 {
        0
    } else {
        live_count(s.drop_last()) + live_weight(s.last())
    }
}

/// Every cell of the sequence is dead.
pub open spec fn all_dead(s: Seq<Cell>) -> bool {
    forall|i: int| 0 <= i < s.len() ==> !(#[trigger] s[i]).alive
}

/// The live count of an 8-cell neighborhood, written out cell by cell.
pub proof fn lemma_live_count8(s: Seq<Cell>)
    requires
        s.len() == 8,
    ensures
        live_count(s) == live_weight(s[0]) + live_weight(s[1]) + live_weight(s[2])
            + live_weight(s[3]) + live_weight(s[4]) + live_weight(s[5]) + live_weight(s[6])
            + live_weight(s[7]),
{
    assert forall|k: int| 1 <= k <= 8 implies live_count(#[trigger] s.take(k)) == live_count(
        s.take(k - 1),
    ) + live_weight(s[k - 1]) by {
        assert(s.take(k).drop_last() =~= s.take(k - 1));
        assert(s.take(k).last() == s[k - 1]);
    }
    assert(live_count(s.take(0)) == 0);
    assert(s.take(8) =~= s);
    assert(live_count(s) == live_count(s.take(8)));
}

impl Cell {
    /// A freshly created, dead cell.
    pub fn new_dead() -> (c: Cell)
        ensures
            !c.alive,
    {
        Cell { alive: false }
    }

    /// Pure query: is the cell alive?
    pub fn is_alive(&self) -> (r: bool)
        ensures
            r == self.alive,
    {
        self.alive
    }

    /// Unconditionally make the cell live; idempotent.
    pub fn set_alive(&mut self)
        ensures
            final(self).alive,
    {
        self.alive = true;
    }

    /// Unconditionally make the cell dead; idempotent.
    pub fn set_dead(&mut self)
        ensures
            !final(self).alive,
    {
        self.alive = false;
    }

    /// Flip the cell's state.
    pub fn toggle(&mut self)
        ensures
            final(self).alive == !old(self).alive,
    {
        self.alive = !self.alive;
    }

    /// How many of the 8 neighbor cells are alive.
    fn count_live(neighbors: &[Cell; 8]) -> (n: usize)
        ensures
            n == live_count(neighbors@),
    {
        let mut n: usize = 0;
        let mut i: usize = 0;
        while i < 8
            invariant
                i <= 8,
                n <= i,
                n == live_count(neighbors@.take(i as int)),
            decreases 8 - i,
        {
            proof {
                assert(neighbors@.take(i + 1).drop_last() =~= neighbors@.take(i as int));
                assert(neighbors@.take(i + 1).last() == neighbors@[i as int]);
            }
            if neighbors[i].is_alive() {
                n = n + 1;
            }
            i = i + 1;
        }
        proof {
            assert(neighbors@.take(8) =~= neighbors@);
        }
        n
    }

    /// True iff a cell with these neighbors has fewer than 2 live ones:
    /// a live cell dies of isolation.
    pub fn alone(neighbors: &[Cell; 8]) -> (r: bool)
        ensures
            r == (live_count(neighbors@) < 2),
    {
        Self::count_live(neighbors) < 2
    }

    /// True iff a cell with these neighbors has more than 3 live ones:
    /// a live cell dies of overcrowding.
    pub fn overpopulated(neighbors: &[Cell; 8]) -> (r: bool)
        ensures
            r == (live_count(neighbors@) > 3),
    {
        Self::count_live(neighbors) > 3
    }

    /// True iff exactly 3 of the neighbors are alive: a dead cell is born.
    pub fn can_be_revived(neighbors: &[Cell; 8]) -> (r: bool)
        ensures
            r == (live_count(neighbors@) == 3),
    {
        Self::count_live(neighbors) == 3
    }
}

} // verus!
