//! The board: a strip of cells, each filled or empty.

use crate::bits::{bit_vec_cells, cells_clone, cells_from_elem, cells_get, cells_len, cells_set};
use bit_vec::BitVec;
use vstd::prelude::*;

verus! {

/// Whether cells `i`, `i + 1` and `i + 2` of `s` are all filled.
pub open spec fn run_at(s: Seq<bool>, i: int) -> bool {
    0 <= i && i + 2 < s.len() && s[i] && s[i + 1] && s[i + 2]
}

/// Whether `s` holds three filled cells in a row somewhere.
pub open spec fn has_run(s: Seq<bool>) -> bool {
    exists|i: int| run_at(s, i)
}

/// The number of filled cells of `s`.
pub open spec fn filled(s: Seq<bool>) -> nat
    decreases s.len(),
{
    if s.len() == 0 {
        0
    } else {
        filled(s.drop_last()) + if s.last() { 1nat } else { 0nat }
    }
}

/// The board `s` with cell `x` filled as well. An `x` off the board changes nothing.
pub open spec fn with_move(s: Seq<bool>, x: int) -> Seq<bool> {
    Seq::new(s.len(), |i: int| i == x || s[i])
}

/// A game of treblecross: a strip of cells, `true` where a cell is filled.
pub struct Game {
    pub state: BitVec,
}

impl View for Game {
    type V = Seq<bool>;

    open spec fn view(&self) -> Seq<bool> {
        bit_vec_cells(self.state)
    }
}

impl Game {
    /// A board of `size` empty cells.
    #[must_use]
    pub fn new(size: usize) -> (game: Game)
        ensures
            game@ == Seq::new(size as nat, |i: int| false),
    {
        Game { state: cells_from_elem(size, false) }
    }

    /// The number of cells of the board.
    #[must_use]
    pub fn size(&self) -> (n: usize)
        ensures
            n == self@.len(),
    {
        cells_len(&self.state)
    }

    /// The number of filled cells, which is the number of moves made.
    #[must_use]
    pub fn amount_played(&self) -> (count: usize)
        ensures
            count == filled(self@),
    {
        let n: usize = self.size();
        let mut count: usize = 0;
        let mut i: usize = 0;
        while i < n
            invariant
                n == self@.len(),
                i <= n,
                count <= i,
                count == filled(self@.take(i as int)),
            decreases n - i,
        {
            proof {
                assert(self@.take(i + 1).drop_last() =~= self@.take(i as int));
            }
            if cells_get(&self.state, i) {
                count = count + 1;
            }
            i = i + 1;
        }
        proof {
            assert(self@.take(n as int) =~= self@);
        }
        count
    }

    /// Whether cell `x` is empty, so that a move can be made there.
    #[must_use]
    pub fn can_play(&self, x: usize) -> (free: bool)
        requires
            x < self@.len(),
        ensures
            free == !self@[x as int],
    {
        !cells_get(&self.state, x)
    }

    /// Whether the board already holds three filled cells in a row.
    #[must_use]
    pub fn game_over(&self) -> (over: bool)
        ensures
            over == has_run(self@),
    {
        let n: usize = self.size();
        let mut consecutive: usize = 0;
        let mut i: usize = 0;
        while i < n
            invariant
                n == self@.len(),
                i <= n,
                consecutive <= 2,
                consecutive >= 1 <==> (i >= 1 && self@[i - 1]),
                consecutive >= 2 <==> (i >= 2 && self@[i - 1] && self@[i - 2]),
                forall|j: int| j + 2 < i ==> !run_at(self@, j),
            decreases n - i,
        {
            if cells_get(&self.state, i) {
                consecutive = consecutive + 1;
            } else {
                consecutive = 0;
            }
            if consecutive >= 3 {
                proof {
                    assert(run_at(self@, i - 2));
                }
                return true;
            }
            i = i + 1;
        }
        false
    }

    /// Whether filling cell `x`, on top of the cells already filled, gives three
    /// filled cells in a row. The board itself is left as it is.
    #[must_use]
    pub fn is_winning_move(&self, x: usize) -> (wins: bool)
        ensures
            wins == has_run(with_move(self@, x as int)),
    {
        let n: usize = self.size();
        let ghost t = with_move(self@, x as int);
        let mut consecutive: usize = 0;
        let mut i: usize = 0;
        while i < n
            invariant
                n == self@.len(),
                t == with_move(self@, x as int),
                i <= n,
                consecutive <= 2,
                consecutive >= 1 <==> (i >= 1 && t[i - 1]),
                consecutive >= 2 <==> (i >= 2 && t[i - 1] && t[i - 2]),
                forall|j: int| j + 2 < i ==> !run_at(t, j),
            decreases n - i,
        {
            if i == x || cells_get(&self.state, i) {
                consecutive = consecutive + 1;
            } else {
                consecutive = 0;
            }
            if consecutive >= 3 {
                proof {
                    assert(run_at(t, i - 2));
                }
                return true;
            }
            i = i + 1;
        }
        false
    }

    /// Fills cell `x`. On a cell that is filled already the board stays as it is.
    pub fn play(&mut self, x: usize)
        requires
            x < old(self)@.len(),
        ensures
            final(self)@ == old(self)@.update(x as int, true),
    {
        cells_set(&mut self.state, x, true);
    }
}

impl Clone for Game {
    /// A board of its own with the same cells.
    fn clone(&self) -> (copy: Game)
        ensures
            copy@ == self@,
    {
        Game { state: cells_clone(&self.state) }
    }
}

} // verus!
