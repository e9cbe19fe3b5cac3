use treblecross::{negamax, solve, solve_and_collect, Game};

fn board(cells: &[bool]) -> Game {
    let mut game = Game::new(cells.len());
    for (x, &cell) in cells.iter().enumerate() {
        if cell {
            game.play(x);
        }
    }
    game
}

fn has_run(cells: &[bool]) -> bool {
    cells.windows(3).any(|w| w[0] && w[1] && w[2])
}

/// The scores, computed on plain slices without any pruning.
fn plain_scores(cells: &[bool]) -> Vec<isize> {
    let n = cells.len() as isize;
    let played = cells.iter().filter(|&&c| c).count() as isize;
    let mut scores = Vec::new();
    for x in 0..cells.len() {
        if cells[x] {
            scores.push(-n);
            continue;
        }
        let mut next = cells.to_vec();
        next[x] = true;
        if has_run(&next) {
            scores.push((n + 1 - played) / 2);
        } else {
            let best = plain_scores(&next).into_iter().max().unwrap();
            scores.push(-best);
        }
    }
    scores
}

fn boards_of(len: usize) -> Vec<Vec<bool>> {
    let mut all = Vec::new();
    for bits in 0..(1usize << len) {
        all.push((0..len).map(|x| bits & (1 << x) != 0).collect());
    }
    all
}

#[test]
fn filled_cell_scores_the_sentinel() {
    let mut game = Game::new(5);
    game.play(2);
    let scores = solve(&game);
    assert_eq!(scores.len(), 5);
    assert_eq!(scores[2], -5);
}

#[test]
fn winning_move_scores_by_moves_made() {
    let mut game = Game::new(5);
    game.play(0);
    game.play(1);
    let scores = solve(&game);
    assert_eq!(scores[0], -5);
    assert_eq!(scores[1], -5);
    assert_eq!(scores[2], 2);
    assert_eq!(solve_and_collect(&game)[2], 2);
    assert_eq!(solve_and_collect(&game)[0], -5);
}

#[test]
fn winning_move_score_rounds_down() {
    let mut game = Game::new(6);
    game.play(2);
    game.play(4);
    assert_eq!(solve(&game)[3], 2);
    let mut game = Game::new(6);
    game.play(0);
    game.play(2);
    game.play(4);
    assert_eq!(solve(&game)[3], 2);
    assert_eq!(solve(&game)[1], 2);
}

#[test]
fn three_empty_cells() {
    let game = Game::new(3);
    assert_eq!(solve(&game), vec![1, 1, 1]);
    assert_eq!(solve_and_collect(&game), vec![1, 1, 1]);
}

#[test]
fn reply_that_wins_makes_a_move_lose() {
    let mut game = Game::new(3);
    game.play(0);
    assert_eq!(solve(&game), vec![-3, -1, -1]);
    assert_eq!(solve_and_collect(&game), vec![-3, -1, -1]);
}

#[test]
fn strips_too_short_for_a_run() {
    assert_eq!(solve(&Game::new(1)), vec![1]);
    assert_eq!(solve(&Game::new(2)), vec![-2, -2]);
    assert_eq!(solve_and_collect(&Game::new(1)), vec![1]);
    assert_eq!(solve_and_collect(&Game::new(2)), vec![-2, -2]);
    let mut game = Game::new(2);
    game.play(0);
    assert_eq!(solve(&game), vec![-2, 2]);
    assert_eq!(solve_and_collect(&game), vec![-2, 2]);
}

#[test]
fn empty_strip_has_no_scores() {
    let game = Game::new(0);
    assert_eq!(solve(&game), Vec::<isize>::new());
    assert_eq!(solve_and_collect(&game), Vec::<isize>::new());
}

#[test]
fn full_board_scores_the_sentinel_everywhere() {
    let game = board(&[true, true, false, true]);
    let mut full = game.clone();
    full.play(2);
    assert_eq!(solve(&full), vec![-4, -4, -4, -4]);
    assert_eq!(solve_and_collect(&full), vec![-4, -4, -4, -4]);
}

#[test]
fn solve_gives_one_score_per_cell() {
    for len in 0..9 {
        let game = Game::new(len);
        assert_eq!(solve(&game).len(), len);
        assert_eq!(solve_and_collect(&game).len(), len);
    }
}

#[test]
fn solve_leaves_the_board_alone() {
    let mut game = Game::new(6);
    game.play(1);
    let first = solve(&game);
    assert_eq!(game.amount_played(), 1);
    assert!(!game.can_play(1));
    let second = solve(&game);
    assert_eq!(first, second);
}

#[test]
fn solve_matches_plain_search_on_small_boards() {
    for len in 0..8 {
        for cells in boards_of(len) {
            let game = board(&cells);
            assert_eq!(solve(&game), plain_scores(&cells));
        }
    }
}

#[test]
fn mirrored_board_gives_mirrored_scores() {
    for len in 0..8 {
        for cells in boards_of(len) {
            let mut mirrored = cells.clone();
            mirrored.reverse();
            let mut scores = solve(&board(&cells));
            scores.reverse();
            assert_eq!(solve(&board(&mirrored)), scores);
            let mut pruned = solve_and_collect(&board(&cells));
            pruned.reverse();
            assert_eq!(solve_and_collect(&board(&mirrored)), pruned);
        }
    }
}

#[test]
fn pruned_search_agrees_with_plain_search() {
    for len in 0..9 {
        for cells in boards_of(len) {
            let game = board(&cells);
            let plain = solve(&game);
            let pruned = solve_and_collect(&game);
            assert_eq!(pruned, plain);
            for x in 0..len {
                if cells[x] {
                    assert_eq!(pruned[x], -(len as isize));
                }
            }
        }
    }
}

#[test]
fn opening_scores_of_longer_strips() {
    for len in 3..11 {
        let game = Game::new(len);
        let plain = plain_scores(&vec![false; len]);
        let pruned = solve_and_collect(&game);
        assert_eq!(pruned, plain);
        let top = (len as isize - 1) / 2;
        for score in pruned {
            assert!(score <= top);
            assert!(score >= -(len as isize / 2));
        }
    }
}

#[test]
fn negamax_with_a_full_window_is_exact() {
    for len in 1..7 {
        for cells in boards_of(len) {
            let best = plain_scores(&cells).into_iter().max().unwrap();
            let n = len as isize;
            assert_eq!(negamax(&board(&cells), -n, n), best);
        }
    }
}

#[test]
fn negamax_with_a_narrow_window_bounds_the_best_score() {
    for len in 1..7 {
        let n = len as isize;
        for cells in boards_of(len) {
            let best = plain_scores(&cells).into_iter().max().unwrap();
            for alpha in (-n - 2)..(n + 2) {
                for beta in (alpha + 1)..=(n + 2) {
                    let value = negamax(&board(&cells), alpha, beta);
                    assert!(value <= n);
                    if beta >= -n {
                        assert!(value >= -n);
                    }
                    if alpha < best && best < beta {
                        assert_eq!(value, best);
                    }
                    if value <= alpha {
                        assert!(best <= value);
                    } else if value >= beta {
                        assert!(best >= value);
                    } else {
                        assert_eq!(best, value);
                    }
                }
            }
        }
    }
}

#[test]
fn negamax_sees_a_win_at_once() {
    let game = board(&[true, true, false, false, false, false, false]);
    assert_eq!(negamax(&game, -7, 7), 3);
    assert_eq!(negamax(&game, 0, 1), 3);
    let game = board(&[false, false, false, true, true]);
    assert_eq!(negamax(&game, -5, 0), 2);
    assert_eq!(negamax(&game, 3, 5), 2);
}

#[test]
fn negamax_gives_the_win_score_whatever_the_window() {
    for len in 3..7 {
        let n = len as isize;
        for cells in boards_of(len) {
            let played = cells.iter().filter(|&&c| c).count() as isize;
            let wins = (0..len).any(|x| {
                let mut next = cells.clone();
                next[x] = true;
                !cells[x] && has_run(&next)
            });
            if wins {
                for alpha in (-n - 2)..(n + 3) {
                    for beta in (-n - 2)..(n + 3) {
                        assert_eq!(negamax(&board(&cells), alpha, beta), (n + 1 - played) / 2);
                    }
                }
            }
        }
    }
}

#[test]
fn negamax_gives_the_later_win_score_once_alpha_has_reached_it() {
    for len in 3..7 {
        let n = len as isize;
        for cells in boards_of(len) {
            let played = cells.iter().filter(|&&c| c).count() as isize;
            let wins = (0..len).any(|x| {
                let mut next = cells.clone();
                next[x] = true;
                !cells[x] && has_run(&next)
            });
            if wins || played == n {
                continue;
            }
            let most = (n - 1 - played) / 2;
            for alpha in (-n - 2)..(n + 3) {
                for beta in (-n - 2)..(n + 3) {
                    let lowered = beta.min(most);
                    if alpha >= lowered {
                        assert_eq!(negamax(&board(&cells), alpha, beta), lowered);
                    }
                }
            }
        }
    }
}

#[test]
fn negamax_with_the_widest_window_is_exact() {
    for len in 0..7 {
        for cells in boards_of(len) {
            let best = plain_scores(&cells).into_iter().max().unwrap_or(0);
            assert_eq!(negamax(&board(&cells), isize::MIN, isize::MAX), best);
        }
    }
}

#[test]
fn negamax_returns_on_any_window() {
    let game = board(&[false, true, false, false, true, false]);
    for alpha in [isize::MIN, -7, 0, 7, isize::MAX] {
        for beta in [isize::MIN, -7, 0, 7, isize::MAX] {
            let value = negamax(&game, alpha, beta);
            assert!(value <= 6);
        }
    }
}

#[test]
fn negamax_on_an_open_board_with_alpha_at_the_bound() {
    let game = Game::new(5);
    assert_eq!(negamax(&game, 2, 5), 2);
    assert_eq!(negamax(&game, 3, 4), 2);
    let game = board(&[true, false, false, false, false, false]);
    assert_eq!(negamax(&game, 2, 3), 2);
}
