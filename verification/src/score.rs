//! What a move is worth: the mathematical definition of the scores, and the
//! facts about it that the search relies on.

use crate::game::{filled, has_run, run_at, with_move};
use vstd::prelude::*;

verus! {

/// The number of empty cells of `s`.
pub open spec fn empties(s: Seq<bool>) -> nat {
    (s.len() - filled(s)) as nat
}

/// The score of a move that wins at once on board `s`: larger the earlier the
/// game ends.
pub open spec fn win_score(s: Seq<bool>) -> int {
    (s.len() + 1 - filled(s)) / 2
}

/// The most that a player can still have on board `s` where nobody wins at
/// once: the score of a win two moves from now.
pub open spec fn later_win_score(s: Seq<bool>) -> int {
    (s.len() - 1 - filled(s)) / 2
}

/// Whether cell `x` of board `s` is empty and filling it gives three in a row.
pub open spec fn wins_at(s: Seq<bool>, x: int) -> bool {
    0 <= x < s.len() && !s[x] && has_run(with_move(s, x))
}

/// Whether the player about to move on board `s` has a move that wins at once.
pub open spec fn can_win_at_once(s: Seq<bool>) -> bool {
    exists|x: int| wins_at(s, x)
}

/// The score of playing cell `x` on board `s`, for the player about to move.
/// A filled cell scores `-len`. A move that completes three in a row scores
/// `win_score`. Any other move scores the negation of the best score that the
/// opponent then has.
pub open spec fn move_score(s: Seq<bool>, x: int) -> int
    decreases empties(s), 0nat, 0nat,
    via move_score_decreases
{
    if !(0 <= x < s.len()) || s[x] {
        -(s.len() as int)
    } else if has_run(with_move(s, x)) {
        win_score(s)
    } else {
        -best_upto(with_move(s, x), s.len())
    }
}

/// The highest score among the first `k` cells of `s`, and `-len` if `k` is 0.
pub open spec fn best_upto(s: Seq<bool>, k: nat) -> int
    decreases empties(s), 1nat, k,
{
    if k == 0 {
        -(s.len() as int)
    } else {
        let rest = best_upto(s, (k - 1) as nat);
        let here = move_score(s, k - 1);
        if here > rest {
            here
        } else {
            rest
        }
    }
}

/// The highest score that the player about to move has on board `s`.
pub open spec fn best_score(s: Seq<bool>) -> int {
    best_upto(s, s.len())
}

#[via_fn]
proof fn move_score_decreases(s: Seq<bool>, x: int) {
    if 0 <= x < s.len() && !s[x] {
        lemma_filled_with_move(s, x);
    }
}

/// No board has more filled cells than cells.
pub proof fn lemma_filled_bound(s: Seq<bool>)
    ensures
        filled(s) <= s.len(),
    decreases s.len(),
{
    if s.len() > 0 {
        lemma_filled_bound(s.drop_last());
    }
}

/// Filling a cell inside the board is an update of that cell.
pub proof fn lemma_with_move_is_update(s: Seq<bool>, x: int)
    requires
        0 <= x < s.len(),
    ensures
        with_move(s, x) == s.update(x, true),
{
    assert(with_move(s, x) =~= s.update(x, true));
}

/// Filling an empty cell adds one to the number of filled cells, which stays
/// within the board's length.
pub proof fn lemma_filled_with_move(s: Seq<bool>, x: int)
    requires
        0 <= x < s.len(),
        !s[x],
    ensures
        filled(with_move(s, x)) == filled(s) + 1,
        filled(s) < s.len(),
        empties(with_move(s, x)) < empties(s),
    decreases s.len(),
{
    let t = with_move(s, x);
    if x == s.len() - 1 {
        assert(t.drop_last() =~= s.drop_last());
    } else {
        lemma_filled_with_move(s.drop_last(), x);
        assert(t.drop_last() =~= with_move(s.drop_last(), x));
    }
    lemma_filled_bound(t);
}

/// Every score lies between `-len` and `len`.
pub proof fn lemma_score_range(s: Seq<bool>, x: int)
    ensures
        -s.len() <= move_score(s, x) <= s.len(),
    decreases empties(s), 0nat, 0nat,
{
    if 0 <= x < s.len() && !s[x] {
        lemma_filled_with_move(s, x);
        if !has_run(with_move(s, x)) {
            lemma_best_range(with_move(s, x), s.len());
        }
    }
}

/// The highest score among the first `k` cells lies between `-len` and `len`.
pub proof fn lemma_best_range(s: Seq<bool>, k: nat)
    ensures
        -s.len() <= best_upto(s, k) <= s.len(),
    decreases empties(s), 1nat, k,
{
    if k > 0 {
        lemma_best_range(s, (k - 1) as nat);
        lemma_score_range(s, k - 1);
    }
}

/// `best_upto` is a maximum: no score among the first `k` cells is above it,
/// and it is one of them unless it is `-len`.
pub proof fn lemma_best_is_max(s: Seq<bool>, k: nat)
    ensures
        forall|y: int| 0 <= y < k ==> move_score(s, y) <= best_upto(s, k),
        best_upto(s, k) == -s.len() || exists|y: int|
            0 <= y < k && best_upto(s, k) == move_score(s, y),
    decreases k,
{
    if k > 0 {
        lemma_best_is_max(s, (k - 1) as nat);
        let rest = best_upto(s, (k - 1) as nat);
        if rest != -s.len() && best_upto(s, k) == rest {
            let y = choose|y: int| 0 <= y < k - 1 && rest == move_score(s, y);
            assert(0 <= y < k && best_upto(s, k) == move_score(s, y));
        } else if best_upto(s, k) != rest {
            assert(0 <= k - 1 < k && best_upto(s, k) == move_score(s, k - 1));
        }
    }
}

/// On a board of three cells or more, a move on an empty cell scores at most
/// `win_score` and at least the negation of the win score one move later; a
/// move that does not win at once scores at most the win score two moves later.
pub proof fn lemma_score_margin(s: Seq<bool>, x: int)
    requires
        s.len() >= 3,
        0 <= x < s.len(),
        !s[x],
    ensures
        -((s.len() - filled(s)) / 2) <= move_score(s, x) <= win_score(s),
        !has_run(with_move(s, x)) ==> move_score(s, x) <= later_win_score(s),
    decreases empties(s),
{
    let n = s.len();
    let t = with_move(s, x);
    lemma_filled_with_move(s, x);
    if !has_run(t) {
        lemma_best_is_max(t, n);
        // the board is not full after the move, and the reply there bounds the best reply
        if forall|z: int| 0 <= z < n ==> t[z] {
            assert(run_at(t, 0));
        }
        let z = choose|z: int| 0 <= z < n && !t[z];
        lemma_score_margin(t, z);
        // whichever reply is best, it is no better than a win
        if best_upto(t, n) != -n {
            let y = choose|y: int| 0 <= y < n && best_upto(t, n) == move_score(t, y);
            if !t[y] {
                lemma_score_margin(t, y);
            }
        }
    }
}

/// Where some move wins at once, the best score is `win_score`.
pub proof fn lemma_win_is_best(s: Seq<bool>, x: int)
    requires
        wins_at(s, x),
    ensures
        best_score(s) == win_score(s),
{
    let n = s.len();
    let i = choose|i: int| run_at(with_move(s, x), i);
    assert(run_at(with_move(s, x), i));
    lemma_filled_with_move(s, x);
    lemma_best_is_max(s, n);
    lemma_score_margin(s, x);
    if best_upto(s, n) != -n {
        let y = choose|y: int| 0 <= y < n && best_upto(s, n) == move_score(s, y);
        if !s[y] {
            lemma_score_margin(s, y);
        }
    }
}

/// On a board of three cells or more with an empty cell, where no move wins at
/// once, the best score is at most the win score two moves later.
pub proof fn lemma_quiet_bound(s: Seq<bool>)
    requires
        s.len() >= 3,
        filled(s) < s.len(),
        !can_win_at_once(s),
    ensures
        best_score(s) <= later_win_score(s),
{
    let n = s.len();
    lemma_best_is_max(s, n);
    if best_upto(s, n) != -n {
        let y = choose|y: int| 0 <= y < n && best_upto(s, n) == move_score(s, y);
        if !s[y] {
            assert(!wins_at(s, y));
            lemma_score_margin(s, y);
        }
    }
}

} // verus!
