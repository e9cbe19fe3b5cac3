//! The search: plain negamax, and negamax with alpha-beta pruning.

use crate::game::{filled, Game};
use crate::score::{
    best_score, best_upto, can_win_at_once, empties, later_win_score, lemma_best_is_max,
    lemma_best_range, lemma_filled_bound, lemma_filled_with_move, lemma_quiet_bound,
    lemma_win_is_best, lemma_with_move_is_update, move_score, win_score, wins_at,
};
use vstd::prelude::*;

verus! {

/// Whether `scores` holds, cell by cell, the scores of board `s`.
pub open spec fn is_solution(s: Seq<bool>, scores: Seq<isize>) -> bool {
    &&& scores.len() == s.len()
    &&& forall|x: int| 0 <= x < s.len() ==> scores[x] == move_score(s, x)
}

/// The lower of `beta` and the most that can still be had on board `s` where
/// nobody wins at once.
pub open spec fn lowered(s: Seq<bool>, beta: int) -> int {
    if beta < later_win_score(s) {
        beta
    } else {
        later_win_score(s)
    }
}

/// The highest of the scores `replies` of board `next`.
fn best_reply(next: &Game, replies: &Vec<isize>) -> (best: isize)
    requires
        next@.len() <= isize::MAX,
        is_solution(next@, replies@),
    ensures
        best == best_score(next@),
{
    let n: usize = next.size();
    let mut best: isize = -(n as isize);
    let mut y: usize = 0;
    while y < n
        invariant
            n == next@.len(),
            n == replies@.len(),
            y <= n,
            is_solution(next@, replies@),
            best == best_upto(next@, y as nat),
        decreases n - y,
    {
        if replies[y] > best {
            best = replies[y];
        }
        y = y + 1;
    }
    best
}

/// Scores every cell of the board for the player about to move, by searching
/// every line of play to its end. The search goes one move deeper with each
/// call, so no deeper than the number of empty cells.
pub fn solve(game: &Game) -> (scores: Vec<isize>)
    requires
        game@.len() <= isize::MAX,
    ensures
        is_solution(game@, scores@),
    decreases empties(game@),
{
    let n: usize = game.size();
    let played: usize = game.amount_played();
    proof {
        lemma_filled_bound(game@);
    }
    let mut scores: Vec<isize> = Vec::new();
    let mut x: usize = 0;
    while x < n
        invariant
            n == game@.len(),
            n <= isize::MAX,
            played == filled(game@),
            played <= n,
            x <= n,
            scores@.len() == x,
            forall|y: int| 0 <= y < x ==> scores@[y] == move_score(game@, y),
        decreases n - x,
    {
        let score: isize = if !game.can_play(x) {
            -(n as isize)
        } else if game.is_winning_move(x) {
            ((n - played + 1) / 2) as isize
        } else {
            let mut next = game.clone();
            next.play(x);
            proof {
                lemma_with_move_is_update(game@, x as int);
                lemma_filled_with_move(game@, x as int);
                lemma_best_range(next@, n as nat);
            }
            let replies = solve(&next);
            -best_reply(&next, &replies)
        };
        scores.push(score);
        x = x + 1;
    }
    scores
}

/// Searches the board with a window: `alpha` is what the player about to move
/// is already sure of, `beta` what the opponent will allow. Where `alpha` is
/// below `beta`, the value returned is the best score itself where it falls
/// inside the window, an upper bound of it where it is `alpha` or less, and a
/// lower bound where it is `beta` or more.
///
/// A move that wins at once ends the search with the score of that win,
/// whatever the window. Otherwise the window is first cut down to the range of
/// the scores, and on a board of three cells or more with an empty cell `beta`
/// is lowered to the most that can still be had, a win two moves from now:
/// where `alpha` has reached the lowered `beta` already, that is returned at
/// once, and else the search stops as soon as a move reaches it.
pub fn negamax(game: &Game, alpha: isize, beta: isize) -> (value: isize)
    requires
        game@.len() <= isize::MAX,
    ensures
        value <= game@.len(),
        beta >= -game@.len() ==> value >= -game@.len(),
        alpha < beta && value <= alpha ==> best_score(game@) <= value,
        alpha < beta && alpha < value < beta ==> best_score(game@) == value,
        alpha < beta && value >= beta ==> best_score(game@) >= value,
        alpha < best_score(game@) < beta ==> value == best_score(game@),
        can_win_at_once(game@) ==> value == win_score(game@),
        !can_win_at_once(game@) && game@.len() >= 3 && filled(game@) < game@.len() && alpha
            >= lowered(game@, beta as int) ==> value == lowered(game@, beta as int),
    decreases empties(game@),
{
    let n: usize = game.size();
    let played: usize = game.amount_played();
    proof {
        lemma_filled_bound(game@);
        lemma_best_range(game@, n as nat);
    }
    let mut x: usize = 0;
    while x < n
        invariant
            n == game@.len(),
            n <= isize::MAX,
            played == filled(game@),
            played <= n,
            x <= n,
            forall|y: int| 0 <= y < x ==> !wins_at(game@, y),
        decreases n - x,
    {
        if game.can_play(x) && game.is_winning_move(x) {
            proof {
                assert(wins_at(game@, x as int));
                lemma_win_is_best(game@, x as int);
            }
            return ((n - played + 1) / 2) as isize;
        }
        x = x + 1;
    }
    assert(!can_win_at_once(game@));
    // no score lies outside -n ..= n
    let floor: isize = -(n as isize);
    let mut low: isize = if alpha < floor {
        floor
    } else {
        alpha
    };
    let mut high: isize = if beta > n as isize {
        n as isize
    } else {
        beta
    };
    if n >= 3 && played < n {
        // nobody wins at once, so the best left is a win two moves from now
        let most: isize = ((n - 1 - played) / 2) as isize;
        proof {
            lemma_quiet_bound(game@);
        }
        if high > most {
            high = most;
        }
    }
    if low >= high {
        return high;
    }
    let ghost start = low;
    x = 0;
    while x < n
        invariant
            n == game@.len(),
            n <= isize::MAX,
            x <= n,
            !can_win_at_once(game@),
            alpha < beta,
            start == if alpha < -n { -n } else { alpha as int },
            -n <= start <= low < high <= beta,
            high <= n,
            high == beta || best_score(game@) <= high,
            n >= 3 && filled(game@) < n ==> high <= later_win_score(game@),
            best_upto(game@, x as nat) <= low,
            low == start || low == best_upto(game@, x as nat),
            -n <= best_score(game@) <= n,
        decreases n - x,
    {
        if game.can_play(x) {
            let mut next = game.clone();
            next.play(x);
            proof {
                lemma_with_move_is_update(game@, x as int);
                lemma_filled_with_move(game@, x as int);
                assert(!wins_at(game@, x as int));
                assert(move_score(game@, x as int) == -best_score(next@));
            }
            let score: isize = -negamax(&next, -high, -low);
            if score >= high {
                proof {
                    lemma_best_is_max(game@, n as nat);
                }
                return score;
            }
            if score > low {
                low = score;
            }
        } else {
            proof {
                assert(move_score(game@, x as int) == -n);
            }
        }
        x = x + 1;
    }
    low
}

/// Scores every cell of the board for the player about to move, as `solve`
/// does, pruning the lines of play that cannot change a score.
#[must_use]
pub fn solve_and_collect(game: &Game) -> (scores: Vec<isize>)
    requires
        game@.len() <= isize::MAX,
    ensures
        is_solution(game@, scores@),
{
    let n: usize = game.size();
    let played: usize = game.amount_played();
    proof {
        lemma_filled_bound(game@);
    }
    let mut scores: Vec<isize> = Vec::new();
    let mut x: usize = 0;
    while x < n
        invariant
            n == game@.len(),
            n <= isize::MAX,
            played == filled(game@),
            played <= n,
            x <= n,
            scores@.len() == x,
            forall|y: int| 0 <= y < x ==> scores@[y] == move_score(game@, y),
        decreases n - x,
    {
        let score: isize = if !game.can_play(x) {
            -(n as isize)
        } else if game.is_winning_move(x) {
            ((n - played + 1) / 2) as isize
        } else {
            let mut next = game.clone();
            next.play(x);
            proof {
                lemma_with_move_is_update(game@, x as int);
                lemma_best_range(next@, n as nat);
            }
            -negamax(&next, -(n as isize), n as isize)
        };
        scores.push(score);
        x = x + 1;
    }
    scores
}

} // verus!
