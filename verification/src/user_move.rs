use vstd::prelude::*;

use crate::chessboard::BoardSquare;
use crate::game::Move;
use crate::pieces::Piece;

verus! {

/// A user move consists of the piece the user wants to move and all possible
/// moves this piece is able to execute.
#[derive(Debug)]
pub struct UserMove {
    pub piece: Piece,
    pub possible_moves: Vec<Move>,
}

/// The first move in a list aimed at a target square, scanning from `i`.
pub open spec fn find_move_from(ms: Seq<Move>, target: BoardSquare, i: int) -> Option<Move>
    decreases ms.len() - i,
{
    if i < 0 || i >= ms.len() {
        None
    } else if ms[i].target == target {
        Some(ms[i])
    } else {
        find_move_from(ms, target, i + 1)
    }
}

impl UserMove {
    pub fn new(piece: Piece, possible_moves: Vec<Move>) -> (r: Self)
        ensures
            r.piece == piece,
            r.possible_moves@ == possible_moves@,
    {
        UserMove { piece, possible_moves }
    }

    /// The only possible move to a given target square of the chess board.
    pub fn possible_move_to_target(&self, target: BoardSquare) -> (r: Option<Move>)
        ensures
            r == find_move_from(self.possible_moves@, target, 0),
    {
        let mut i: usize = 0;
        while i < self.possible_moves.len()
            invariant
                i <= self.possible_moves@.len(),
                find_move_from(self.possible_moves@, target, 0) == find_move_from(
                    self.possible_moves@,
                    target,
                    i as int,
                ),
            decreases self.possible_moves@.len() - i,
        {
            if self.possible_moves[i].target == target {
                return Some(self.possible_moves[i]);
            }
            i += 1;
        }
        None
    }
}

} // verus!
