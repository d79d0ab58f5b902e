use vstd::prelude::*;
use vstd::pervasive::VecAdditionalExecFns;

use crate::chessboard::BoardSquare;
use crate::game::{ChessGame, ExecutedMove, Move};
use crate::model::{castle_apply, is_castling_move_spec, move_pieces, moved_piece, remove_at};
use crate::pieces::{Piece, PieceType};

verus! {

/// A trait which denotes a single move primitive within a game of chess.
/// Each primitive relocates (and possibly removes) pieces in the roster and
/// touches nothing else of the game state.
pub trait ChessGameMove: Sized {
    /// What this primitive needs of the game it executes in.
    spec fn ok(self, game: ChessGame) -> bool;

    /// The roster after this primitive's relocations.
    spec fn applied(self, pieces: Seq<Piece>) -> Seq<Piece>;

    /// Execute the primitive on the game's roster.
    fn execute(&self, game: &mut ChessGame)
        requires
            self.ok(*old(game)),
        ensures
            final(game).pieces@ == self.applied(old(game).pieces@),
            final(game).board == old(game).board,
            final(game).executed_moves@ == old(game).executed_moves@,
            final(game).chess_moves@ == old(game).chess_moves@,
            final(game).promotion_pawn == old(game).promotion_pawn,
            final(game).initial_color == old(game).initial_color,
    ;
}

impl ChessGameMove for Move {
    /// A plain relocation needs nothing of the game.
    open spec fn ok(self, game: ChessGame) -> bool {
        true
    }

    open spec fn applied(self, pieces: Seq<Piece>) -> Seq<Piece> {
        move_pieces(pieces, self.piece.square, self.target)
    }

    /// Relocate whatever stands on this move's source square to its target.
    fn execute(&self, game: &mut ChessGame) {
        let ghost orig = game.pieces@;
        let mut i: usize = 0;
        while i < game.pieces.len()
            invariant
                i <= game.pieces@.len(),
                game.pieces@.len() == orig.len(),
                forall|j: int|
                    0 <= j < i ==> game.pieces@[j] == moved_piece(
                        #[trigger] orig[j],
                        self.piece.square,
                        self.target,
                    ),
                forall|j: int| i <= j < orig.len() ==> #[trigger] game.pieces@[j] == orig[j],
                game.board == old(game).board,
                game.executed_moves@ == old(game).executed_moves@,
                game.chess_moves@ == old(game).chess_moves@,
                game.promotion_pawn == old(game).promotion_pawn,
                game.initial_color == old(game).initial_color,
                orig == old(game).pieces@,
            decreases orig.len() - i,
        {
            if game.pieces[i].square == self.piece.square {
                let mut p = game.pieces[i];
                p.square = self.target;
                game.pieces.set(i, p);
            }
            i += 1;
        }
        proof {
            assert(game.pieces@ =~= move_pieces(orig, self.piece.square, self.target));
        }
    }
}

/// A capture: the victim leaves the roster, the attacker takes its square.
#[derive(Debug, Clone, Copy)]
pub struct CapturingMove {
    pub attacker: Piece,
    pub victim: Piece,
}

impl CapturingMove {
    pub fn new(attacker: Piece, victim: Piece) -> (r: Self)
        ensures
            r == (CapturingMove { attacker, victim }),
    {
        CapturingMove { attacker, victim }
    }
}

/// Remove every piece standing on a square from the game's roster.
fn remove_pieces_at(game: &mut ChessGame, sq: BoardSquare)
    ensures
        final(game).pieces@ == remove_at(old(game).pieces@, sq),
        final(game).board == old(game).board,
        final(game).executed_moves@ == old(game).executed_moves@,
        final(game).chess_moves@ == old(game).chess_moves@,
        final(game).promotion_pawn == old(game).promotion_pawn,
        final(game).initial_color == old(game).initial_color,
{
    let ghost orig = game.pieces@;
    let mut kept: Vec<Piece> = Vec::new();
    let mut i: usize = 0;
    while i < game.pieces.len()
        invariant
            i <= game.pieces@.len(),
            game.pieces@ == orig,
            kept@ == remove_at(orig.take(i as int), sq),
        decreases orig.len() - i,
    {
        let p = game.pieces[i];
        proof {
            assert(orig.take(i as int + 1).drop_last() =~= orig.take(i as int));
            assert(orig.take(i as int + 1).last() == orig[i as int]);
        }
        if p.square != sq {
            kept.push(p);
        }
        i += 1;
    }
    proof {
        assert(orig.take(orig.len() as int) =~= orig);
    }
    game.pieces = kept;
}

impl ChessGameMove for CapturingMove {
    /// A capture needs nothing of the game.
    open spec fn ok(self, game: ChessGame) -> bool {
        true
    }

    open spec fn applied(self, pieces: Seq<Piece>) -> Seq<Piece> {
        move_pieces(remove_at(pieces, self.victim.square), self.attacker.square, self.victim.square)
    }

    /// Remove the victim, then relocate the attacker onto its square.
    fn execute(&self, game: &mut ChessGame) {
        remove_pieces_at(game, self.victim.square);
        Move::new(self.attacker, self.victim.square).execute(game);
    }
}

/// An en-passant capture: the passed pawn is removed from the square its
/// double step ended on, and the capturing pawn lands behind it.
pub struct EnPassantMove {
    pub attacker: Piece,
    pub victim_move: ExecutedMove,
    pub target: BoardSquare,
}

impl EnPassantMove {
    pub fn new(attacker: &Piece, victim_move: &ExecutedMove, target: &BoardSquare) -> (r: Self)
        ensures
            r.attacker == *attacker,
            r.victim_move == *victim_move,
            r.target == *target,
    {
        EnPassantMove { attacker: *attacker, victim_move: *victim_move, target: *target }
    }
}

impl ChessGameMove for EnPassantMove {
    /// An en-passant capture needs nothing of the game.
    open spec fn ok(self, game: ChessGame) -> bool {
        true
    }

    open spec fn applied(self, pieces: Seq<Piece>) -> Seq<Piece> {
        move_pieces(
            remove_at(pieces, self.victim_move.target_square),
            self.attacker.square,
            self.target,
        )
    }

    /// Remove the passed pawn from where it actually stands, then relocate
    /// the capturing pawn onto the target square.
    fn execute(&self, game: &mut ChessGame) {
        remove_pieces_at(game, self.victim_move.target_square);
        Move::new(self.attacker, self.target).execute(game);
    }
}

/// The atomic two-piece castling relocation.
pub struct CastlingMove {
    pub king: Piece,
    pub rook: Piece,
}

impl CastlingMove {
    pub fn new(king: Piece, rook: Piece) -> (r: Self)
        ensures
            r == (CastlingMove { king, rook }),
    {
        CastlingMove { king, rook }
    }

    /// Whether this castling move is taking place at the king's side.
    pub fn is_kingside(&self) -> (r: bool)
        ensures
            r == (self.king.square.sx() < self.rook.square.sx()),
    {
        self.king.square.x() < self.rook.square.x()
    }
}

impl ChessGameMove for CastlingMove {
    /// The fixed board geometry must give both relocation targets; castling
    /// eligibility guarantees it (the king stands on its file-e start square
    /// and the rook in a corner).
    open spec fn ok(self, game: ChessGame) -> bool {
        let kingside = self.king.square.sx() < self.rook.square.sx();
        let kd: int = if kingside {
            2
        } else {
            -2
        };
        let rd: int = if kingside {
            -2
        } else {
            3
        };
        &&& crate::chessboard::board_wf(game.board)
        &&& 0 <= self.king.square.sx() + kd < 8
        &&& 0 <= self.king.square.sy() < 8
        &&& 0 <= self.rook.square.sx() + rd < 8
        &&& 0 <= self.rook.square.sy() < 8
    }

    open spec fn applied(self, pieces: Seq<Piece>) -> Seq<Piece> {
        castle_apply(pieces, self.king, self.rook)
    }

    /// Move the king two files toward the rook, then the rook onto the
    /// square beside the king's new position, on the side the king came from.
    fn execute(&self, game: &mut ChessGame) {
        let is_kingside = self.is_kingside();
        let king_delta: (i8, i8) = match is_kingside {
            true => (2, 0),
            false => (-2, 0),
        };
        let king_square = self.king.square;
        let king_target = match game.board.square_relative(king_square, king_delta) {
            Some(t) => t,
            None => {
                proof {
                    assert(false);
                }
                king_square
            },
        };
        Move::new(self.king, king_target).execute(game);
        let rook_delta: (i8, i8) = match is_kingside {
            true => (-2, 0),
            false => (3, 0),
        };
        let rook_square = self.rook.square;
        let rook_target = match game.board.square_relative(rook_square, rook_delta) {
            Some(t) => t,
            None => {
                proof {
                    assert(false);
                }
                rook_square
            },
        };
        Move::new(self.rook, rook_target).execute(game);
    }
}

/// Whether a given piece together with a start and a target square denote a
/// castling move: a king whose files differ by more than one.
pub fn is_castling_move(piece: &Piece, start: &BoardSquare, target: &BoardSquare) -> (r: bool)
    ensures
        r == is_castling_move_spec(*piece, *start, *target),
{
    if piece.piece_type != PieceType::King {
        return false;
    }
    let d = start.x() - target.x();
    d > 1 || d < -1
}

} // verus!
