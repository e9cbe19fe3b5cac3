//! One game played at a keyboard: what a key does to the cursor and the board,
//! and who has won.

use crate::game::{filled, has_run, run_at, Game};
use vstd::prelude::*;

verus! {

/// What the player at the keyboard asks for.
#[derive(Clone, Copy, Debug, PartialEq, Eq)]
pub enum Command {
    /// Move the cursor one cell to the left.
    Left,
    /// Move the cursor one cell to the right.
    Right,
    /// Fill the cell under the cursor.
    Select,
    /// Any other key.
    Ignore,
}

/// Where the cursor stands after `command`.
pub open spec fn cursor_after(len: nat, cursor: usize, command: Command) -> int {
    match command {
        Command::Left => if cursor == 0 {
            0
        } else {
            cursor - 1
        },
        Command::Right => if cursor + 1 < len {
            cursor + 1
        } else {
            len - 1
        },
        _ => cursor as int,
    }
}

/// Whether `command` makes a move on board `s` with the cursor on `cursor`.
pub open spec fn makes_move(s: Seq<bool>, cursor: usize, command: Command) -> bool {
    command == Command::Select && !s[cursor as int]
}

/// Carries out `command`: moves the cursor within the board, or fills the cell
/// under it if that cell is empty. Returns the cursor's new place and whether a
/// move was made.
pub fn press(game: &mut Game, cursor: usize, command: Command) -> (after: (usize, bool))
    requires
        command == Command::Right ==> old(game)@.len() > 0 && cursor < usize::MAX,
        command == Command::Select ==> cursor < old(game)@.len(),
    ensures
        after.0 == cursor_after(old(game)@.len(), cursor, command),
        after.1 == makes_move(old(game)@, cursor, command),
        final(game)@ == if after.1 {
            old(game)@.update(cursor as int, true)
        } else {
            old(game)@
        },
{
    match command {
        Command::Left => {
            if cursor == 0 {
                (0, false)
            } else {
                (cursor - 1, false)
            }
        },
        Command::Right => {
            let last: usize = game.size() - 1;
            if cursor + 1 < last {
                (cursor + 1, false)
            } else {
                (last, false)
            }
        },
        Command::Select => {
            if game.can_play(cursor) {
                game.play(cursor);
                (cursor, true)
            } else {
                (cursor, false)
            }
        },
        Command::Ignore => (cursor, false),
    }
}

/// A board with a filled cell has at least one move made on it.
proof fn lemma_filled_counts(s: Seq<bool>, i: int)
    requires
        0 <= i < s.len(),
        s[i],
    ensures
        filled(s) >= 1,
    decreases s.len(),
{
    if i < s.len() - 1 {
        lemma_filled_counts(s.drop_last(), i);
    }
}

/// Who has won on board `s`: nobody while no three cells in a row are filled;
/// then player 1 after an odd number of moves and player 2 after an even one.
pub open spec fn winner_of(s: Seq<bool>) -> Option<u8> {
    if !has_run(s) {
        None
    } else if filled(s) % 2 == 0 {
        Some(2u8)
    } else {
        Some(1u8)
    }
}

/// The player who has won, if the game is over. A finished game has at least
/// one move made.
pub fn winner(game: &Game) -> (who: Option<u8>)
    ensures
        who == winner_of(game@),
        who is Some ==> filled(game@) >= 1,
{
    if game.game_over() {
        proof {
            let i = choose|i: int| run_at(game@, i);
            lemma_filled_counts(game@, i);
        }
        if game.amount_played() % 2 == 0 {
            Some(2)
        } else {
            Some(1)
        }
    } else {
        None
    }
}

} // verus!
