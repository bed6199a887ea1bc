use vstd::prelude::*;

use crate::board::Board;
use crate::color::PlayerColor;
use crate::twistboard::TwistBoard;

verus! {

/// What follows one applied move: the same player moves again, the other
/// player takes over, or the game is decided.
#[derive(Debug, Clone, PartialEq, Eq)]
pub enum TurnResult<PlayerId> {
    PlayAgain,
    PassTo(PlayerId),
    EndGame { winner: PlayerId },
}

/// A player with a display name.
pub trait NamedPlayer {
    fn name(&self) -> &'static str;
}

/// The turn driver's decision after a move of the four-arm variant: the game
/// ends on a win, the maximum die face grants another turn, anything else
/// passes the turn to the waiting player.
pub fn next_turn_result(board: &Board, other: PlayerColor, dice: u8) -> (r: TurnResult<
    PlayerColor,
>)
    requires
        board.lens_ok(),
    ensures
        r == (match board.spec_winner() {
            Some(w) => TurnResult::EndGame { winner: w },
            None => if dice == 6 {
                TurnResult::<PlayerColor>::PlayAgain
            } else {
                TurnResult::PassTo(other)
            },
        }),
{
    match board.get_winner() {
        Some(winner) => TurnResult::EndGame { winner },
        None => {
            if dice == 6 {
                TurnResult::PlayAgain
            } else {
                TurnResult::PassTo(other)
            }
        },
    }
}

/// The turn driver's decision after a move of the rotating variant: the
/// game ends on a win, the maximum number face grants another turn, anything
/// else passes the turn to the waiting player.
pub fn next_twist_turn_result(board: &TwistBoard, other: PlayerColor, number: u8) -> (r: TurnResult<
    PlayerColor,
>)
    requires
        board.lens_ok(),
    ensures
        r == (match board.spec_winner() {
            Some(w) => TurnResult::EndGame { winner: w },
            None => if number == 6 {
                TurnResult::<PlayerColor>::PlayAgain
            } else {
                TurnResult::PassTo(other)
            },
        }),
{
    match board.get_winner() {
        Some(winner) => TurnResult::EndGame { winner },
        None => {
            if number == 6 {
                TurnResult::PlayAgain
            } else {
                TurnResult::PassTo(other)
            }
        },
    }
}

} // verus!
