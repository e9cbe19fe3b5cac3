//! What holds of the scores on every board.

use crate::game::{filled, has_run, run_at, with_move};
use crate::score::{
    best_score, best_upto, empties, lemma_best_is_max, lemma_best_range, lemma_filled_bound,
    lemma_filled_with_move, lemma_score_margin, move_score,
};
use crate::solver::is_solution;
use vstd::prelude::*;

verus! {

/// The sequence `s` read from its other end.
pub open spec fn mirror<A>(s: Seq<A>) -> Seq<A> {
    Seq::new(s.len(), |i: int| s[s.len() - 1 - i])
}

/// The filled cells can be counted from the left end as well.
proof fn lemma_filled_from_left(s: Seq<bool>)
    requires
        s.len() > 0,
    ensures
        filled(s) == filled(s.drop_first()) + if s[0] { 1nat } else { 0nat },
    decreases s.len(),
{
    if s.len() == 1 {
        assert(s.drop_last() =~= s.drop_first());
    } else {
        lemma_filled_from_left(s.drop_last());
        assert(s.drop_first().drop_last() =~= s.drop_last().drop_first());
    }
}

/// A board and its mirror image have as many filled cells.
pub proof fn lemma_filled_mirror(s: Seq<bool>)
    ensures
        filled(mirror(s)) == filled(s),
    decreases s.len(),
{
    if s.len() > 0 {
        lemma_filled_mirror(s.drop_first());
        lemma_filled_from_left(s);
        assert(mirror(s).drop_last() =~= mirror(s.drop_first()));
    }
}

/// Three in a row on a board are three in a row on its mirror image.
proof fn lemma_run_survives_mirror(s: Seq<bool>)
    requires
        has_run(s),
    ensures
        has_run(mirror(s)),
{
    let i = choose|i: int| run_at(s, i);
    assert(run_at(mirror(s), s.len() - 3 - i));
}

/// A board holds three in a row exactly if its mirror image does.
pub proof fn lemma_run_mirror(s: Seq<bool>)
    ensures
        has_run(mirror(s)) == has_run(s),
{
    assert(mirror(mirror(s)) =~= s);
    if has_run(s) {
        lemma_run_survives_mirror(s);
    }
    if has_run(mirror(s)) {
        lemma_run_survives_mirror(mirror(s));
    }
}

/// On the mirror image of a board, each cell scores what its mirror image
/// scores on the board itself: the game has no left and right.
pub proof fn lemma_score_mirror(s: Seq<bool>, x: int)
    requires
        0 <= x < s.len(),
    ensures
        move_score(mirror(s), s.len() - 1 - x) == move_score(s, x),
    decreases empties(s), 0nat,
{
    let n = s.len();
    if !s[x] {
        let t = with_move(s, x);
        assert(with_move(mirror(s), n - 1 - x) =~= mirror(t));
        lemma_filled_mirror(s);
        lemma_run_mirror(t);
        if !has_run(t) {
            lemma_filled_with_move(s, x);
            lemma_best_mirror(t);
        }
    }
}

/// A board and its mirror image have the same best score.
pub proof fn lemma_best_mirror(s: Seq<bool>)
    ensures
        best_score(mirror(s)) == best_score(s),
    decreases empties(s), 1nat,
{
    let n = s.len();
    let m = mirror(s);
    assert forall|y: int| 0 <= y < n implies move_score(m, n - 1 - y) == move_score(s, y) by {
        lemma_score_mirror(s, y);
    }
    lemma_best_is_max(s, n);
    lemma_best_is_max(m, n);
    lemma_best_range(s, n);
    lemma_best_range(m, n);
    if best_upto(s, n) != -n {
        let y = choose|y: int| 0 <= y < n && best_upto(s, n) == move_score(s, y);
        assert(move_score(m, n - 1 - y) <= best_upto(m, n));
    }
    if best_upto(m, n) != -n {
        let y = choose|y: int| 0 <= y < n && best_upto(m, n) == move_score(m, y);
        assert(move_score(m, n - 1 - (n - 1 - y)) == move_score(s, n - 1 - y));
        assert(move_score(s, n - 1 - y) <= best_upto(s, n));
    }
}

/// Solving the mirror image of a board gives the scores of the board in
/// reverse order.
pub proof fn lemma_solution_mirror(s: Seq<bool>, scores: Seq<isize>, mirrored: Seq<isize>)
    requires
        is_solution(s, scores),
        is_solution(mirror(s), mirrored),
    ensures
        mirrored == mirror(scores),
{
    let n = s.len();
    assert forall|x: int| 0 <= x < n implies mirrored[x] == mirror(scores)[x] by {
        lemma_score_mirror(s, n - 1 - x);
    }
    assert(mirrored =~= mirror(scores));
}

/// The search with pruning and the search without give the same scores, cell by
/// cell: a board has one solution. So the two agree on the sign of every score
/// and on the ranking of the moves.
pub proof fn lemma_pruned_agrees(s: Seq<bool>, plain: Seq<isize>, pruned: Seq<isize>)
    requires
        is_solution(s, plain),
        is_solution(s, pruned),
    ensures
        pruned == plain,
{
    assert(pruned =~= plain);
}

/// How deep the search goes below board `s` when it tries cell `x`: not at all
/// where the cell is filled or the move wins at once, and else one call more
/// than it goes below the board with that cell filled.
pub open spec fn depth_after(s: Seq<bool>, x: int) -> nat
    decreases empties(s), 0nat, 0nat,
    via depth_after_decreases
{
    if !(0 <= x < s.len()) || s[x] || has_run(with_move(s, x)) {
        0
    } else {
        1 + depth_upto(with_move(s, x), s.len())
    }
}

/// The deepest that the search goes below board `s` when it tries the first
/// `k` cells.
pub open spec fn depth_upto(s: Seq<bool>, k: nat) -> nat
    decreases empties(s), 1nat, k,
{
    if k == 0 {
        0
    } else {
        let rest = depth_upto(s, (k - 1) as nat);
        let here = depth_after(s, k - 1);
        if here > rest {
            here
        } else {
            rest
        }
    }
}

/// The depth of the calls nested in a search of board `s`.
pub open spec fn search_depth(s: Seq<bool>) -> nat {
    depth_upto(s, s.len())
}

#[via_fn]
proof fn depth_after_decreases(s: Seq<bool>, x: int) {
    if 0 <= x < s.len() && !s[x] {
        lemma_filled_with_move(s, x);
    }
}

/// Trying one cell takes the search no deeper than the board has empty cells.
pub proof fn lemma_depth_after_bound(s: Seq<bool>, x: int)
    ensures
        depth_after(s, x) <= empties(s),
    decreases empties(s), 0nat, 0nat,
{
    if 0 <= x < s.len() && !s[x] && !has_run(with_move(s, x)) {
        lemma_filled_with_move(s, x);
        lemma_depth_upto_bound(with_move(s, x), s.len());
    }
}

/// Trying the first `k` cells takes the search no deeper than the board has
/// empty cells.
pub proof fn lemma_depth_upto_bound(s: Seq<bool>, k: nat)
    ensures
        depth_upto(s, k) <= empties(s),
    decreases empties(s), 1nat, k,
{
    if k > 0 {
        lemma_depth_upto_bound(s, (k - 1) as nat);
        lemma_depth_after_bound(s, k - 1);
    }
}

/// Each nested call is on a board with one more cell filled, so the calls of a
/// search nest no deeper than the board has empty cells: its length less the
/// number of moves made.
pub proof fn lemma_search_depth(s: Seq<bool>)
    ensures
        search_depth(s) <= s.len() - filled(s),
        forall|x: int|
            0 <= x < s.len() && !s[x] ==> filled(with_move(s, x)) == filled(s) + 1,
{
    lemma_depth_upto_bound(s, s.len());
    lemma_filled_bound(s);
    assert forall|x: int| 0 <= x < s.len() && !s[x] implies filled(with_move(s, x)) == filled(
        s,
    ) + 1 by {
        lemma_filled_with_move(s, x);
    }
}

/// An empty board has no filled cell.
pub proof fn lemma_filled_of_empty(n: nat)
    ensures
        filled(Seq::new(n, |i: int| false)) == 0,
    decreases n,
{
    if n > 0 {
        lemma_filled_of_empty((n - 1) as nat);
        assert(Seq::new(n, |i: int| false).drop_last() =~= Seq::new(
            (n - 1) as nat,
            |i: int| false,
        ));
    }
}

/// On an empty board of `n >= 3` cells no first move wins at once, so every
/// score lies between `-(n / 2)` and `(n - 1) / 2`.
pub proof fn lemma_opening_scores(n: nat, x: int)
    requires
        n >= 3,
        0 <= x < n,
    ensures
        -(n / 2) <= move_score(Seq::new(n, |i: int| false), x) <= (n - 1) / 2,
{
    let s = Seq::new(n, |i: int| false);
    lemma_filled_of_empty(n);
    assert forall|i: int| !run_at(with_move(s, x), i) by {
        if 0 <= i && i + 2 < n {
            assert(!with_move(s, x)[i] || !with_move(s, x)[i + 1]);
        }
    }
    lemma_score_margin(s, x);
}

} // verus!
