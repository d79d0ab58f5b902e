use vstd::prelude::*;
use vstd::string::StringExecFns;

use crate::chessboard::{BoardSquare, Chessboard, board_wf};
use crate::model::{
    GameView, apply_move, at_coord, castling_rook_spec, checks_from, checks_spec, entries_ok,
    ep_fires, ep_target_spec, exec_ok, find_piece_from, gates_pass, has_moved_spec, initial_view,
    is_check_color_spec, is_check_spec, king_checks_from, legit_castle, lemma_find_from,
    lemma_pieces_ok_move, lemma_pieces_ok_remove, lemma_pieces_ok_retype, move_delta,
    next_color_spec, on_last_rank, piece_at_spec, pieces_ok, promo_scan, promo_scan_from,
    retype_at, spec_exchange, spec_execute, start_pawns, start_piece, start_roster, start_side,
    std_pawn_y, std_y,
};
use crate::game::move_rules::{
    CapturingMove, CastlingMove, ChessGameMove, EnPassantMove, is_castling_move,
};
use crate::pieces::{Piece, PieceColor, PieceType};

pub mod analysis;
pub mod move_rules;

verus! {

/// A single proposed move: a snapshot of the moving piece and the square it
/// is to move to.
#[derive(Copy, Clone, Debug, PartialEq, Eq, Structural)]
pub struct Move {
    pub piece: Piece,
    pub target: BoardSquare,
}

impl Move {
    pub fn new(piece: Piece, target: BoardSquare) -> (r: Move)
        ensures
            r == (Move { piece, target }),
    {
        Move { piece, target }
    }
}

/// A move that has been executed, immutable once appended to the history.
#[derive(Copy, Clone, Debug, PartialEq, Eq, Structural)]
pub struct ExecutedMove {
    pub piece: Piece,
    pub start_square: BoardSquare,
    pub target_square: BoardSquare,
    pub is_capture: bool,
    pub is_chess: bool,
}

impl ExecutedMove {
    fn new(
        piece: Piece,
        start_square: BoardSquare,
        target_square: BoardSquare,
        is_capture: bool,
        is_chess: bool,
    ) -> (r: Self)
        ensures
            r == (ExecutedMove { piece, start_square, target_square, is_capture, is_chess }),
    {
        ExecutedMove { piece, start_square, target_square, is_capture, is_chess }
    }

    fn new_from(source_move: &Move, is_capture: bool, is_chess: bool) -> (r: Self)
        ensures
            r == (ExecutedMove {
                piece: source_move.piece,
                start_square: source_move.piece.square,
                target_square: source_move.target,
                is_capture,
                is_chess,
            }),
    {
        Self::new(
            source_move.piece,
            source_move.piece.square,
            source_move.target,
            is_capture,
            is_chess,
        )
    }

    /// Whether this executed move represents a castling.
    pub fn is_castling(&self) -> (r: bool)
        ensures
            r == crate::model::is_castling_move_spec(
                self.piece,
                self.start_square,
                self.target_square,
            ),
    {
        is_castling_move(&self.piece, &self.start_square, &self.target_square)
    }

    /// This move's coordinate notation string, with capture, check and
    /// castling marks.
    pub fn coord_notation(&self) -> (r: String)
        requires
            self.start_square.valid(),
            self.target_square.valid(),
        ensures
            r@ == crate::model::notation_spec(*self),
    {
        if self.is_castling() {
            if self.target_square.column == 'g' {
                proof {
                    reveal_strlit("0-0");
                }
                let r = String::from_str("0-0");
                proof {
                    assert(r@ =~= crate::model::notation_spec(*self));
                }
                r
            } else {
                proof {
                    reveal_strlit("0-0-0");
                }
                let r = String::from_str("0-0-0");
                proof {
                    assert(r@ =~= crate::model::notation_spec(*self));
                }
                r
            }
        } else {
            let mut s = String::from_str(upper_file_str(self.start_square.column));
            s.append(rank_str(self.start_square.row));
            let mark: &str = if self.is_capture {
                "x"
            } else {
                "-"
            };
            proof {
                reveal_strlit("x");
                reveal_strlit("-");
            }
            s.append(mark);
            s.append(upper_file_str(self.target_square.column));
            s.append(rank_str(self.target_square.row));
            if self.is_chess {
                proof {
                    reveal_strlit("+");
                }
                s.append("+");
            }
            proof {
                assert(s@ =~= crate::model::notation_spec(*self));
            }
            s
        }
    }

    /// The coordinate delta from the start square to the target square.
    pub fn delta(&self) -> (r: (i8, i8))
        ensures
            r.0 as int == move_delta(*self).0,
            r.1 as int == move_delta(*self).1,
    {
        let start_pos = self.start_square.position();
        let target_pos = self.target_square.position();
        (target_pos.0 - start_pos.0, target_pos.1 - start_pos.1)
    }
}

/// The aggregate root: the fixed board, the mutable piece roster, the
/// append-only history, the cached list of current checking moves, the
/// at-most-one pending promotion pawn, and the fixed initial mover.
#[derive(Debug)]
pub struct ChessGame {
    pub board: Chessboard,
    pub pieces: Vec<Piece>,
    pub executed_moves: Vec<ExecutedMove>,
    pub chess_moves: Vec<Move>,
    pub promotion_pawn: Option<Piece>,
    pub initial_color: PieceColor,
}

impl View for ChessGame {
    type V = GameView;

    open spec fn view(&self) -> GameView {
        GameView {
            pieces: self.pieces@,
            moves: self.executed_moves@,
            checks: self.chess_moves@,
            promo: self.promotion_pawn,
            initial: self.initial_color,
        }
    }
}

/// Copy a vector of plain values.
fn copy_vec<T: Copy>(v: &Vec<T>) -> (r: Vec<T>)
    ensures
        r@ == v@,
{
    let mut r: Vec<T> = Vec::new();
    let mut i: usize = 0;
    while i < v.len()
        invariant
            i <= v@.len(),
            r@ =~= v@.take(i as int),
        decreases v@.len() - i,
    {
        r.push(v[i]);
        i += 1;
    }
    proof {
        assert(r@ =~= v@);
    }
    r
}

impl Clone for ChessGame {
    /// A deep copy with the same abstract state; hypothetical-move evaluation
    /// executes candidate moves on such copies.
    fn clone(&self) -> (r: Self)
        ensures
            r@ == self@,
            r.board.squares@ == self.board.squares@,
    {
        ChessGame {
            board: self.board.clone(),
            pieces: copy_vec(&self.pieces),
            executed_moves: copy_vec(&self.executed_moves),
            chess_moves: copy_vec(&self.chess_moves),
            promotion_pawn: self.promotion_pawn,
            initial_color: self.initial_color,
        }
    }
}

impl ChessGame {
    /// The structural invariant of a game: the board has its fixed layout and
    /// the abstract state is well formed.
    pub open spec fn wf(self) -> bool {
        board_wf(self.board) && crate::model::wf(self@)
    }

    /// What the query functions need of a state: a well-laid-out board, and
    /// pieces and history entries on real squares.
    pub open spec fn queryable(self) -> bool {
        board_wf(self.board) && pieces_ok(self@.pieces) && entries_ok(self@.moves)
    }

    /// Create a new chess game with the standard initial piece positions.
    pub fn new() -> (r: Self)
        ensures
            r@ == initial_view(),
            board_wf(r.board),
            r.wf(),
    {
        proof {
            crate::model::lemma_initial_wf();
        }
        let r = ChessGame {
            board: Chessboard::new(),
            pieces: create_start_positions(),
            executed_moves: Vec::new(),
            chess_moves: Vec::new(),
            promotion_pawn: None,
            initial_color: PieceColor::White,
        };
        proof {
            assert(r@.moves =~= initial_view().moves);
            assert(r@.checks =~= initial_view().checks);
        }
        r
    }

    /// The piece at a given coordinate, if any.  Coordinates range over 0..8.
    pub fn piece_at(&self, coord: (i8, i8)) -> (r: Option<Piece>)
        ensures
            r == piece_at_spec(self@.pieces, coord.0 as int, coord.1 as int),
    {
        let x = coord.0;
        let y = coord.1;
        let mut i: usize = 0;
        while i < self.pieces.len()
            invariant
                i <= self.pieces@.len(),
                x == coord.0,
                y == coord.1,
                piece_at_spec(self@.pieces, x as int, y as int) == find_piece_from(
                    self@.pieces,
                    x as int,
                    y as int,
                    i as int,
                ),
            decreases self.pieces@.len() - i,
        {
            let p = self.pieces[i];
            if p.square.x() == x && p.square.y() == y {
                proof {
                    assert(at_coord(self@.pieces[i as int], x as int, y as int));
                    assert(find_piece_from(self@.pieces, x as int, y as int, i as int)
                        == Some(self@.pieces[i as int]));
                    assert(p == self@.pieces[i as int]);
                }
                return Some(p);
            }
            proof {
                assert(!at_coord(self@.pieces[i as int], x as int, y as int));
            }
            i += 1;
        }
        None
    }

    /// The (only) pawn which must be promoted before the next move can be
    /// made.  See [`ChessGame::exchange_promotion_pawn`].
    pub fn promotion_pawn(&self) -> (r: Option<Piece>)
        ensures
            r == self@.promo,
    {
        self.promotion_pawn
    }

    /// All the moves of this game in the order they were executed.
    pub fn executed_moves(&self) -> (r: Vec<ExecutedMove>)
        ensures
            r@ == self@.moves,
    {
        copy_vec(&self.executed_moves)
    }

    /// All moves that denote a check in the current game, as last computed.
    pub fn chess_moves(&self) -> (r: Vec<Move>)
        ensures
            r@ == self@.checks,
    {
        copy_vec(&self.chess_moves)
    }

    /// Whether a given piece has already moved in this game, judged by the
    /// history: some executed move started at the piece's start square.
    pub fn has_already_moved(&self, piece: &Piece) -> (r: bool)
        ensures
            r == has_moved_spec(self@, *piece),
    {
        let mut i: usize = 0;
        while i < self.executed_moves.len()
            invariant
                i <= self.executed_moves@.len(),
                forall|j: int|
                    0 <= j < i ==> (#[trigger] self.executed_moves@[j]).start_square
                        != piece.start_square,
            decreases self.executed_moves@.len() - i,
        {
            if self.executed_moves[i].start_square == piece.start_square {
                return true;
            }
            i += 1;
        }
        false
    }

    /// The piece color which is allowed to move next.
    pub fn next_move_color(&self) -> (r: PieceColor)
        ensures
            r == next_color_spec(self@),
    {
        if self.executed_moves.len() % 2 == 0 {
            return self.initial_color;
        }
        self.initial_color.opponent()
    }

    /// The en-passant target square: present exactly when the last executed
    /// move was a pawn advancing two ranks; the square directly behind it.
    fn en_passant_target(&self) -> (r: Option<BoardSquare>)
        requires
            self.queryable(),
        ensures
            r == ep_target_spec(self@),
    {
        if self.executed_moves.len() == 0 {
            return None;
        }
        let mov = self.executed_moves[self.executed_moves.len() - 1];
        if mov.piece.piece_type != PieceType::Pawn {
            return None;
        }
        let d = mov.delta();
        if !(d.1 == 2 || d.1 == -2) {
            return None;
        }
        let s: i8 = if d.1 > 0 {
            1
        } else {
            -1
        };
        self.board.square_relative(mov.start_square, (d.0, s))
    }

    /// The rook a move would castle with: the corner occupant on the target's
    /// rank, looked up only for a king moving two or more files.
    fn castling_rook(&self, a_move: &Move) -> (r: Option<Piece>)
        ensures
            r == castling_rook_spec(self@, *a_move),
    {
        if a_move.piece.piece_type != PieceType::King {
            return None;
        }
        let king_pos = a_move.piece.square.position();
        let target_pos = a_move.target.position();
        let kd = king_pos.0 - target_pos.0;
        if -2 < kd && kd < 2 {
            return None;
        }
        if a_move.target.column == 'g' {
            self.piece_at((7, a_move.target.y()))
        } else {
            self.piece_at((0, a_move.target.y()))
        }
    }

    /// Execute a given move in this game.  A null move, a move while a
    /// promotion is pending, and a move out of turn are silently dropped;
    /// otherwise the move executes as an en-passant capture, a capture, a
    /// castling or a plain relocation, the history gains one entry, and the
    /// check and promotion state are recomputed.
    ///
    /// Beyond that no legality check is made.  The precondition `exec_ok`
    /// validates only what the branches blindly rely on (real squares, the
    /// transit square of a double step, the geometry behind a castling
    /// request); every move offered by [`Self::possible_moves`] satisfies it
    /// (see `lemma_possible_moves_exec_ok`), and executing such a move also
    /// keeps the game well formed.
    pub fn execute_move(&mut self, chosen_move: &Move)
        requires
            old(self).queryable(),
            exec_ok(old(self)@, *chosen_move),
        ensures
            final(self)@ == spec_execute(old(self)@, *chosen_move),
            final(self).board == old(self).board,
            final(self).queryable(),
            old(self).wf() ==> final(self).wf(),
    {
        proof {
            if old(self).wf() {
                crate::model::lemma_execute_preserves_wf(old(self)@, *chosen_move);
            }
        }
        let m = *chosen_move;
        if m.piece.square == m.target {
            return;
        }
        if self.promotion_pawn.is_some() {
            return;
        }
        if self.next_move_color() != m.piece.color {
            return;
        }
        let ghost v0 = self@;
        proof {
            assert(gates_pass(v0, m));
        }
        let mut capture = false;
        let en_passant_target = self.en_passant_target();
        let is_ep = match en_passant_target {
            Some(t) => t == m.target,
            None => false,
        };
        proof {
            assert(is_ep == ep_fires(v0, m));
        }
        if is_ep {
            proof {
                assert(v0.moves.len() > 0);
            }
            let victim_move = self.executed_moves[self.executed_moves.len() - 1];
            let target_sq = match en_passant_target {
                Some(t) => t,
                None => m.target,
            };
            EnPassantMove::new(&m.piece, &victim_move, &target_sq).execute(self);
            capture = true;
            proof {
                assert(target_sq == m.target);
                assert(victim_move == v0.moves.last());
                assert(self.pieces@ == apply_move(v0, m).0);
                lemma_pieces_ok_remove(v0.pieces, victim_move.target_square);
                lemma_pieces_ok_move(
                    crate::model::remove_at(v0.pieces, victim_move.target_square),
                    m.piece.square,
                    m.target,
                );
            }
        } else {
            let target_occupant = self.piece_at(m.target.position());
            match target_occupant {
                Some(target_piece) => {
                    proof {
                        lemma_find_from(v0.pieces, m.target.sx(), m.target.sy(), 0);
                        crate::chessboard::lemma_square_coords(target_piece.square);
                        crate::chessboard::lemma_square_coords(m.target);
                        assert(target_piece.square == m.target);
                    }
                    CapturingMove::new(m.piece, target_piece).execute(self);
                    capture = true;
                    proof {
                        assert(self.pieces@ == apply_move(v0, m).0);
                        lemma_pieces_ok_remove(v0.pieces, m.target);
                        lemma_pieces_ok_move(
                            crate::model::remove_at(v0.pieces, m.target),
                            m.piece.square,
                            m.target,
                        );
                    }
                },
                None => {
                    let rook_opt = self.castling_rook(&m);
                    match rook_opt {
                        Some(rook) => {
                            proof {
                                assert(legit_castle(v0, m));
                                assert(castling_rook_spec(v0, m) == Some(rook));
                                assert(rook.square.sx() == 7 || rook.square.sx() == 0);
                                assert(m.piece.square.sx() == 4);
                                assert(rook.square.sy() == m.piece.square.sy());
                            }
                            let cm = CastlingMove::new(m.piece, rook);
                            cm.execute(self);
                            proof {
                                assert(self.pieces@ == apply_move(v0, m).0);
                                let kingside = m.piece.square.sx() < rook.square.sx();
                                let kt = crate::chessboard::square_mk(
                                    m.piece.square.sx() + if kingside { 2int } else { -2int },
                                    m.piece.square.sy(),
                                );
                                let rt = crate::chessboard::square_mk(
                                    rook.square.sx() + if kingside { -2int } else { 3int },
                                    rook.square.sy(),
                                );
                                lemma_pieces_ok_move(v0.pieces, m.piece.square, kt);
                                lemma_pieces_ok_move(
                                    crate::model::move_pieces(v0.pieces, m.piece.square, kt),
                                    rook.square,
                                    rt,
                                );
                            }
                        },
                        None => {
                            Move::new(m.piece, m.target).execute(self);
                            proof {
                                assert(self.pieces@ == apply_move(v0, m).0);
                                lemma_pieces_ok_move(v0.pieces, m.piece.square, m.target);
                            }
                        },
                    }
                },
            }
        }
        proof {
            assert(self.pieces@ == apply_move(v0, m).0);
            assert(capture == apply_move(v0, m).1);
            assert(self@ == (GameView { pieces: apply_move(v0, m).0, ..v0 }));
        }
        let is_chess_now = self.is_check();
        let executed_move = ExecutedMove::new_from(&m, capture, is_chess_now);
        self.executed_moves.push(executed_move);
        proof {
            assert(entries_ok(self@.moves)) by {
                assert(forall|i: int|
                    0 <= i < v0.moves.len() ==> self@.moves[i] == #[trigger] v0.moves[i]);
                assert(self@.moves.last() == executed_move);
            }
        }
        let checks = self.calculate_check();
        self.chess_moves = checks;
        let promo = self.check_promotion_pawn();
        self.promotion_pawn = promo;
        proof {
            assert(self@ == spec_execute(v0, m));
        }
    }

    /// Exchange the pawn waiting for promotion for a new piece type; a no-op
    /// when no promotion is pending.  See [`ChessGame::promotion_pawn`].
    pub fn exchange_promotion_pawn(&mut self, new_type: PieceType)
        requires
            old(self).queryable(),
        ensures
            final(self)@ == spec_exchange(old(self)@, new_type),
            final(self).board == old(self).board,
            final(self).queryable(),
            old(self).wf() ==> final(self).wf(),
    {
        proof {
            if old(self).wf() {
                crate::model::lemma_exchange_preserves_wf(old(self)@, new_type);
            }
        }
        let ghost v0 = self@;
        match self.promotion_pawn {
            None => {},
            Some(promotion_pawn) => {
                self.replace_piece_type(promotion_pawn, new_type);
                self.promotion_pawn = None;
                proof {
                    lemma_pieces_ok_retype(v0.pieces, promotion_pawn.square, new_type);
                }
                let checks = self.calculate_check();
                self.chess_moves = checks;
                proof {
                    assert(self@ == spec_exchange(v0, new_type));
                }
            },
        }
    }

    /// Replace the type of whatever stands on the square of `old_piece`.
    fn replace_piece_type(&mut self, old_piece: Piece, new_type: PieceType)
        ensures
            final(self).pieces@ == retype_at(old(self).pieces@, old_piece.square, new_type),
            final(self).board == old(self).board,
            final(self).executed_moves@ == old(self).executed_moves@,
            final(self).chess_moves@ == old(self).chess_moves@,
            final(self).promotion_pawn == old(self).promotion_pawn,
            final(self).initial_color == old(self).initial_color,
    {
        let ghost orig = self.pieces@;
        let mut i: usize = 0;
        while i < self.pieces.len()
            invariant
                i <= self.pieces@.len(),
                self.pieces@.len() == orig.len(),
                forall|j: int|
                    0 <= j < i ==> self.pieces@[j] == crate::model::retyped_piece(
                        #[trigger] orig[j],
                        old_piece.square,
                        new_type,
                    ),
                forall|j: int| i <= j < orig.len() ==> #[trigger] self.pieces@[j] == orig[j],
                self.board == old(self).board,
                self.executed_moves@ == old(self).executed_moves@,
                self.chess_moves@ == old(self).chess_moves@,
                self.promotion_pawn == old(self).promotion_pawn,
                self.initial_color == old(self).initial_color,
                orig == old(self).pieces@,
            decreases orig.len() - i,
        {
            if self.pieces[i].square == old_piece.square {
                let mut p = self.pieces[i];
                p.piece_type = new_type;
                self.pieces.set(i, p);
            }
            i += 1;
        }
        proof {
            assert(self.pieces@ =~= retype_at(orig, old_piece.square, new_type));
        }
    }

    /// Calculate all moves which denote a check in the current position: for
    /// each king, one move per opposing challenger of its square.
    fn calculate_check(&self) -> (r: Vec<Move>)
        requires
            self.queryable(),
        ensures
            r@ == checks_spec(self@),
    {
        let mut result: Vec<Move> = Vec::new();
        let mut i: usize = 0;
        while i < self.pieces.len()
            invariant
                self.queryable(),
                i <= self.pieces@.len(),
                result@ + checks_from(self@, i as int) == checks_spec(self@),
            decreases self.pieces@.len() - i,
        {
            let king = self.pieces[i];
            if king.piece_type == PieceType::King {
                let challengers = self.square_challengers(&king.square);
                let mut j: usize = 0;
                while j < challengers.len()
                    invariant
                        self.queryable(),
                        i < self.pieces@.len(),
                        king == self.pieces@[i as int],
                        king.piece_type == PieceType::King,
                        j <= challengers@.len(),
                        challengers@ == crate::model::challengers_spec(self@, king.square),
                        result@ + king_checks_from(king, challengers@, j as int) + checks_from(
                            self@,
                            i as int + 1,
                        ) == checks_spec(self@),
                    decreases challengers@.len() - j,
                {
                    let candidate = challengers[j];
                    if candidate.color != king.color {
                        result.push(Move::new(candidate, king.square));
                    }
                    proof {
                        assert(result@ + king_checks_from(king, challengers@, j as int + 1)
                            + checks_from(self@, i as int + 1) =~= checks_spec(self@));
                    }
                    j += 1;
                }
                proof {
                    assert(result@ + checks_from(self@, i as int + 1) =~= checks_spec(self@));
                }
            }
            i += 1;
        }
        result
    }

    /// Whether the king of a given piece color is currently in check.
    pub fn is_check_color(&self, color: PieceColor) -> (r: bool)
        requires
            self.queryable(),
        ensures
            r == is_check_color_spec(self@, color),
    {
        let checks = self.calculate_check();
        let mut i: usize = 0;
        while i < checks.len()
            invariant
                i <= checks@.len(),
                checks@ == checks_spec(self@),
                forall|j: int|
                    0 <= j < i ==> (#[trigger] checks_spec(self@)[j]).piece.color == color,
            decreases checks@.len() - i,
        {
            if checks[i].piece.color != color {
                proof {
                    assert(checks_spec(self@)[i as int].piece.color != color);
                }
                return true;
            }
            i += 1;
        }
        false
    }

    /// Whether any of the kings of this game is currently in check.
    pub fn is_check(&self) -> (r: bool)
        requires
            self.queryable(),
        ensures
            r == is_check_spec(self@),
    {
        self.is_check_color(PieceColor::White) || self.is_check_color(PieceColor::Black)
    }

    /// The pawn that must be promoted before the game may continue, if any:
    /// the first pawn standing on a farthest rank.
    fn check_promotion_pawn(&self) -> (r: Option<Piece>)
        ensures
            r == promo_scan(self@.pieces),
    {
        let mut i: usize = 0;
        while i < self.pieces.len()
            invariant
                i <= self.pieces@.len(),
                promo_scan(self@.pieces) == promo_scan_from(self@.pieces, i as int),
            decreases self.pieces@.len() - i,
        {
            let p = self.pieces[i];
            if p.piece_type == PieceType::Pawn && (p.square.row == '1' || p.square.row == '8') {
                proof {
                    assert(on_last_rank(self@.pieces[i as int].square));
                }
                return Some(p);
            }
            i += 1;
        }
        None
    }
}

/// The standard 32-piece roster in creation order.
pub fn create_start_positions() -> (r: Vec<Piece>)
    ensures
        r@ == start_roster(),
{
    let mut result: Vec<Piece> = Vec::new();
    push_side(&mut result, PieceColor::White);
    push_side(&mut result, PieceColor::Black);
    proof {
        assert(result@ =~= start_roster());
    }
    result
}

/// Append the sixteen pieces of one color in creation order.
fn push_side(result: &mut Vec<Piece>, color: PieceColor)
    ensures
        final(result)@ == old(result)@ + start_side(color),
{
    let ghost orig = result@;
    result.push(create_king_start(color));
    result.push(create_queen_start(color));
    let mut knights = create_knights_start(color);
    result.append(&mut knights);
    let mut rooks = create_rooks_start(color);
    result.append(&mut rooks);
    let mut bishops = create_bishops_start(color);
    result.append(&mut bishops);
    let mut pawns = create_pawns_start(color);
    result.append(&mut pawns);
    proof {
        assert(result@ =~= orig + start_side(color));
    }
}

/// The back-rank row label of a color.
fn back_row(color: PieceColor) -> (r: char)
    ensures
        crate::chessboard::char_y(r) == std_y(color),
        r == crate::chessboard::rank_char(std_y(color)),
{
    match color {
        PieceColor::White => '1',
        PieceColor::Black => '8',
    }
}

fn create_king_start(color: PieceColor) -> (r: Piece)
    ensures
        r == start_piece(PieceType::King, color, 4, std_y(color)),
{
    let row = back_row(color);
    Piece::new(PieceType::King, color, BoardSquare::new(row, 'e'))
}

fn create_queen_start(color: PieceColor) -> (r: Piece)
    ensures
        r == start_piece(PieceType::Queen, color, 3, std_y(color)),
{
    let row = back_row(color);
    Piece::new(PieceType::Queen, color, BoardSquare::new(row, 'd'))
}

fn create_knights_start(color: PieceColor) -> (r: Vec<Piece>)
    ensures
        r@ == seq![
            start_piece(PieceType::Knight, color, 1, std_y(color)),
            start_piece(PieceType::Knight, color, 6, std_y(color)),
        ],
{
    let row = back_row(color);
    let r = vec![
        Piece::new(PieceType::Knight, color, BoardSquare::new(row, 'b')),
        Piece::new(PieceType::Knight, color, BoardSquare::new(row, 'g')),
    ];
    proof {
        assert(r@ =~= seq![
            start_piece(PieceType::Knight, color, 1, std_y(color)),
            start_piece(PieceType::Knight, color, 6, std_y(color)),
        ]);
    }
    r
}

fn create_rooks_start(color: PieceColor) -> (r: Vec<Piece>)
    ensures
        r@ == seq![
            start_piece(PieceType::Rook, color, 0, std_y(color)),
            start_piece(PieceType::Rook, color, 7, std_y(color)),
        ],
{
    let row = back_row(color);
    let r = vec![
        Piece::new(PieceType::Rook, color, BoardSquare::new(row, 'a')),
        Piece::new(PieceType::Rook, color, BoardSquare::new(row, 'h')),
    ];
    proof {
        assert(r@ =~= seq![
            start_piece(PieceType::Rook, color, 0, std_y(color)),
            start_piece(PieceType::Rook, color, 7, std_y(color)),
        ]);
    }
    r
}

fn create_bishops_start(color: PieceColor) -> (r: Vec<Piece>)
    ensures
        r@ == seq![
            start_piece(PieceType::Bishop, color, 2, std_y(color)),
            start_piece(PieceType::Bishop, color, 5, std_y(color)),
        ],
{
    let row = back_row(color);
    let r = vec![
        Piece::new(PieceType::Bishop, color, BoardSquare::new(row, 'c')),
        Piece::new(PieceType::Bishop, color, BoardSquare::new(row, 'f')),
    ];
    proof {
        assert(r@ =~= seq![
            start_piece(PieceType::Bishop, color, 2, std_y(color)),
            start_piece(PieceType::Bishop, color, 5, std_y(color)),
        ]);
    }
    r
}

fn create_pawns_start(color: PieceColor) -> (r: Vec<Piece>)
    ensures
        r@ == start_pawns(color),
{
    let y: i8 = match color {
        PieceColor::White => 6,
        PieceColor::Black => 1,
    };
    let mut result: Vec<Piece> = Vec::new();
    let mut x: i8 = 0;
    while x < 8
        invariant
            0 <= x <= 8,
            y as int == std_pawn_y(color),
            result@ =~= start_pawns(color).take(x as int),
        decreases 8 - x,
    {
        let square = crate::chessboard::make_square(x, y);
        result.push(Piece::new(PieceType::Pawn, color, square));
        x += 1;
    }
    proof {
        assert(result@ =~= start_pawns(color));
    }
    result
}

/// The upper-case letter of a file label, as a string.
fn upper_file_str(c: char) -> (r: &'static str)
    requires
        'a' <= c && c <= 'h',
    ensures
        r@ =~= seq![crate::model::upper_char(c)],
{
    if c == 'a' {
        proof { reveal_strlit("A"); }
        "A"
    } else if c == 'b' {
        proof { reveal_strlit("B"); }
        "B"
    } else if c == 'c' {
        proof { reveal_strlit("C"); }
        "C"
    } else if c == 'd' {
        proof { reveal_strlit("D"); }
        "D"
    } else if c == 'e' {
        proof { reveal_strlit("E"); }
        "E"
    } else if c == 'f' {
        proof { reveal_strlit("F"); }
        "F"
    } else if c == 'g' {
        proof { reveal_strlit("G"); }
        "G"
    } else {
        proof { reveal_strlit("H"); }
        "H"
    }
}

/// A rank label as a string.
fn rank_str(c: char) -> (r: &'static str)
    requires
        '1' <= c && c <= '8',
    ensures
        r@ =~= seq![c],
{
    if c == '1' {
        proof { reveal_strlit("1"); }
        "1"
    } else if c == '2' {
        proof { reveal_strlit("2"); }
        "2"
    } else if c == '3' {
        proof { reveal_strlit("3"); }
        "3"
    } else if c == '4' {
        proof { reveal_strlit("4"); }
        "4"
    } else if c == '5' {
        proof { reveal_strlit("5"); }
        "5"
    } else if c == '6' {
        proof { reveal_strlit("6"); }
        "6"
    } else if c == '7' {
        proof { reveal_strlit("7"); }
        "7"
    } else {
        proof { reveal_strlit("8"); }
        "8"
    }
}

} // verus!
