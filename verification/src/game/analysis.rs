use vstd::prelude::*;

use crate::chessboard::BoardSquare;
use crate::game::{ChessGame, Move};
use crate::model::{
    can_move_spec, castle_dir_move, castle_moves_spec, challengers_from, challengers_spec,
    check_after, checkmate_spec, lemma_piece_at, stalemate_spec,
    context_spec, covers, exec_ok, is_castling_move_spec, keep_move, lemma_candidates_exec_ok,
    lemma_next_piece_in_roster, lemma_pm_member, next_piece_from, next_piece_spec, occupant,
    piece_at_spec, pm_from, possible_moves_spec, ray_measure, spec_execute, targets_spec, walk,
    walk_all_from,
};
use crate::game::move_rules::is_castling_move;
use crate::pieces::{
    CapturePolicy, Direction, Piece, PieceColor, PieceType, all_directions,
    lemma_piece_deltas_bounds, piece_deltas, spec_piece_deltas,
};

verus! {

impl ChessGame {
    /// The closest piece from a given board square in a given direction.
    fn next_piece_in_direction(&self, square: &BoardSquare, dir: &Direction) -> (r: Option<Piece>)
        requires
            self.queryable(),
            square.valid(),
        ensures
            r == next_piece_spec(self@, *square, *dir),
    {
        let d = dir.delta();
        let pos = square.position();
        let sliding = dir.sliding();
        let mut cx: i8 = pos.0 + d.0;
        let mut cy: i8 = pos.1 + d.1;
        proof {
            assert(-2 <= d.0 as int <= 2 && -2 <= d.1 as int <= 2 && (d.0 != 0 || d.1 != 0));
        }
        loop
            invariant_except_break
                self.queryable(),
                -2 <= cx as int <= 9,
                -2 <= cy as int <= 9,
                d == dir.spec_delta(),
                sliding == dir.spec_sliding(),
                -2 <= d.0 as int <= 2 && -2 <= d.1 as int <= 2 && (d.0 != 0 || d.1 != 0),
                next_piece_spec(self@, *square, *dir) == next_piece_from(
                    self@.pieces,
                    cx as int,
                    cy as int,
                    d.0 as int,
                    d.1 as int,
                    sliding,
                ),
            ensures
                next_piece_spec(self@, *square, *dir) == piece_at_spec(
                    self@.pieces,
                    cx as int,
                    cy as int,
                ),
            decreases ray_measure(cx as int, cy as int, d.0 as int, d.1 as int),
        {
            if !(0 <= cx && cx < 8 && 0 <= cy && cy < 8) {
                break;
            }
            if !sliding {
                break;
            }
            if self.piece_at((cx, cy)).is_some() {
                break;
            }
            cx = cx + d.0;
            cy = cy + d.1;
        }
        self.piece_at((cx, cy))
    }

    /// Whether a piece's own (unfiltered) movement geometry covers a square.
    fn covers_square(&self, piece: &Piece, square: &BoardSquare) -> (r: bool)
        requires
            self.queryable(),
            piece.square.valid(),
        ensures
            r == covers(self@, *piece, *square),
    {
        let targets = self.possible_targets(piece);
        let mut i: usize = 0;
        while i < targets.len()
            invariant
                i <= targets@.len(),
                self.queryable(),
                piece.square.valid(),
                targets@ == targets_spec(self@, *piece),
                forall|j: int|
                    0 <= j < i ==> !((#[trigger] targets_spec(self@, *piece)[j]).sx()
                        == square.sx() && targets_spec(self@, *piece)[j].sy() == square.sy()),
            decreases targets@.len() - i,
        {
            let t = targets[i];
            if t.x() == square.x() && t.y() == square.y() {
                proof {
                    assert(targets_spec(self@, *piece)[i as int].sx() == square.sx()
                        && targets_spec(self@, *piece)[i as int].sy() == square.sy());
                }
                return true;
            }
            i += 1;
        }
        false
    }

    /// All possible target squares of a given piece, before legality
    /// filtering: the walks over the piece's rays, then castling targets.
    fn possible_targets(&self, piece: &Piece) -> (r: Vec<BoardSquare>)
        requires
            self.queryable(),
            piece.square.valid(),
        ensures
            r@ == targets_spec(self@, *piece),
    {
        let mut result: Vec<BoardSquare> = Vec::new();
        let deltas = piece_deltas(piece);
        proof {
            lemma_piece_deltas_bounds(*piece);
        }
        let mut di: usize = 0;
        while di < deltas.len()
            invariant
                self.queryable(),
                piece.square.valid(),
                di <= deltas@.len(),
                deltas@ == spec_piece_deltas(*piece),
                forall|i: int|
                    0 <= i < spec_piece_deltas(*piece).len() ==> {
                        let pd = #[trigger] spec_piece_deltas(*piece)[i];
                        -2 <= pd.delta.0 <= 2 && -2 <= pd.delta.1 <= 2 && 1 <= pd.max_distance <= 7
                    },
                result@ + walk_all_from(self@, *piece, deltas@, di as int) == walk_all_from(
                    self@,
                    *piece,
                    deltas@,
                    0,
                ),
            decreases deltas@.len() - di,
        {
            let pd = deltas[di];
            proof {
                assert(pd == spec_piece_deltas(*piece)[di as int]);
            }
            let ghost base = result@;
            let mut distance: i8 = 1;
            loop
                invariant_except_break
                    self.queryable(),
                    piece.square.valid(),
                    -2 <= pd.delta.0 as int <= 2,
                    -2 <= pd.delta.1 as int <= 2,
                    1 <= pd.max_distance as int <= 7,
                    1 <= distance as int <= pd.max_distance as int + 1,
                    base.len() <= result@.len(),
                    result@.take(base.len() as int) == base,
                    walk(self@, *piece, pd, 1) == result@.skip(base.len() as int) + walk(
                        self@,
                        *piece,
                        pd,
                        distance as int,
                    ),
                ensures
                    base.len() <= result@.len(),
                    result@.take(base.len() as int) == base,
                    walk(self@, *piece, pd, 1) == result@.skip(base.len() as int),
                decreases pd.max_distance as int + 1 - distance as int,
            {
                if distance > pd.max_distance {
                    proof {
                        assert(walk(self@, *piece, pd, distance as int)
                            =~= Seq::<BoardSquare>::empty());
                        assert(result@.skip(base.len() as int) + Seq::<BoardSquare>::empty()
                            =~= result@.skip(base.len() as int));
                    }
                    break;
                }
                proof {
                    assert(-16 <= pd.delta.0 as int * distance as int <= 16) by (nonlinear_arith)
                        requires
                            -2 <= pd.delta.0 as int <= 2,
                            0 <= distance as int <= 7,
                    ;
                    assert(-16 <= pd.delta.1 as int * distance as int <= 16) by (nonlinear_arith)
                        requires
                            -2 <= pd.delta.1 as int <= 2,
                            0 <= distance as int <= 7,
                    ;
                }
                let coord = (pd.delta.0 * distance, pd.delta.1 * distance);
                let rel = self.board.square_relative(piece.square, coord);
                match rel {
                    None => {
                        proof {
                            assert(walk(self@, *piece, pd, distance as int)
                                =~= Seq::<BoardSquare>::empty());
                            assert(result@.skip(base.len() as int) + Seq::<BoardSquare>::empty()
                                =~= result@.skip(base.len() as int));
                        }
                        break;
                    },
                    Some(target_square) => {
                        let tpos = target_square.position();
                        let occ = self.piece_at(tpos);
                        match occ {
                            None => {
                                let ghost before = result@;
                                if pd.capture_policy != CapturePolicy::Mandatory {
                                    result.push(target_square);
                                } else {
                                    match self.en_passant_target() {
                                        Some(ep) => {
                                            if ep == target_square {
                                                result.push(ep);
                                            }
                                        },
                                        None => {},
                                    }
                                }
                                proof {
                                    assert(result@.take(base.len() as int) =~= base);
                                    assert(walk(self@, *piece, pd, 1) =~= result@.skip(
                                        base.len() as int,
                                    ) + walk(self@, *piece, pd, distance as int + 1));
                                }
                            },
                            Some(other_piece) => {
                                if other_piece.color != piece.color && pd.may_capture() {
                                    result.push(target_square);
                                }
                                proof {
                                    assert(result@.take(base.len() as int) =~= base);
                                    assert(walk(self@, *piece, pd, 1) =~= result@.skip(
                                        base.len() as int,
                                    ));
                                }
                                break;
                            },
                        }
                    },
                }
                distance = distance + 1;
            }
            proof {
                assert(result@ =~= result@.take(base.len() as int) + result@.skip(
                    base.len() as int,
                ));
                assert(result@ =~= base + walk(self@, *piece, pd, 1));
                assert(result@ + walk_all_from(self@, *piece, deltas@, di as int + 1) =~= base
                    + walk_all_from(self@, *piece, deltas@, di as int));
            }
            di += 1;
        }
        let ghost walked = result@;
        let castle_moves = self.possible_castling_moves(piece);
        let mut ci: usize = 0;
        while ci < castle_moves.len()
            invariant
                ci <= castle_moves@.len(),
                castle_moves@ == castle_moves_spec(self@, *piece),
                walked == walk_all_from(self@, *piece, spec_piece_deltas(*piece), 0),
                result@ =~= walked + castle_moves@.map_values(|m: Move| m.target).take(ci as int),
            decreases castle_moves@.len() - ci,
        {
            result.push(castle_moves[ci].target);
            proof {
                assert(result@ =~= walked + castle_moves@.map_values(|m: Move| m.target).take(
                    ci as int + 1,
                ));
            }
            ci += 1;
        }
        proof {
            assert(result@ =~= targets_spec(self@, *piece));
        }
        result
    }

    /// All possible moves a given piece can currently make: its candidate
    /// targets, without those whose execution would leave the mover's own
    /// color in check, and without castling moves whose king path is not
    /// entirely safe from attack.
    pub fn possible_moves(&self, piece: &Piece) -> (r: Vec<Move>)
        requires
            self.wf(),
            occupant(self@.pieces, piece.square) == Some(*piece),
        ensures
            r@ == possible_moves_spec(self@, *piece),
            forall|k: int|
                0 <= k < r@.len() ==> (#[trigger] r@[k]).piece == *piece
                    && !crate::model::is_check_color_spec(
                    spec_execute(self@, r@[k]),
                    piece.color,
                ),
    {
        proof {
            lemma_candidates_exec_ok(self@, *piece);
        }
        let targets = self.possible_targets(piece);
        let mut result: Vec<Move> = Vec::new();
        let mut i: usize = 0;
        while i < targets.len()
            invariant
                self.wf(),
                occupant(self@.pieces, piece.square) == Some(*piece),
                piece.square.valid(),
                i <= targets@.len(),
                targets@ == targets_spec(self@, *piece),
                result@ + pm_from(self@, *piece, targets@, i as int) == possible_moves_spec(
                    self@,
                    *piece,
                ),
            decreases targets@.len() - i,
        {
            proof {
                lemma_candidates_exec_ok(self@, *piece);
            }
            let t = targets[i];
            let m = Move::new(*piece, t);
            proof {
                assert(exec_ok(self@, m));
            }
            let mut keep = !self.is_chess_after_move(&m);
            if keep && is_castling_move(&m.piece, &m.piece.square, &m.target) {
                let between = self.board.all_squares_between(m.piece.square, m.target);
                let mut safe = true;
                let mut bi: usize = 0;
                while bi < between.len()
                    invariant
                        self.wf(),
                        occupant(self@.pieces, piece.square) == Some(*piece),
                        piece.square.valid(),
                        i < targets_spec(self@, *piece).len(),
                        m == (Move { piece: *piece, target: targets_spec(self@, *piece)[i as int] }),
                        is_castling_move_spec(*piece, piece.square, m.target),
                        between@ == crate::chessboard::spec_between(piece.square, m.target),
                        bi <= between@.len(),
                        safe <==> (forall|j: int|
                            0 <= j < bi ==> !check_after(
                                self@,
                                Move {
                                    piece: *piece,
                                    target: #[trigger] crate::chessboard::spec_between(
                                        piece.square,
                                        m.target,
                                    )[j],
                                },
                            )),
                    decreases between@.len() - bi,
                {
                    proof {
                        lemma_candidates_exec_ok(self@, *piece);
                        assert(exec_ok(
                            self@,
                            Move {
                                piece: *piece,
                                target: crate::chessboard::spec_between(
                                    piece.square,
                                    m.target,
                                )[bi as int],
                            },
                        ));
                    }
                    let pm = Move::new(*piece, between[bi]);
                    if self.is_chess_after_move(&pm) {
                        safe = false;
                    }
                    bi += 1;
                }
                keep = safe;
                proof {
                    assert(safe == crate::model::castle_path_safe(self@, m));
                }
            }
            proof {
                assert(keep == keep_move(self@, m));
            }
            if keep {
                result.push(m);
            }
            proof {
                assert(result@ + pm_from(self@, *piece, targets@, i as int + 1)
                    =~= possible_moves_spec(self@, *piece));
            }
            i += 1;
        }
        proof {
            lemma_pm_member(self@, *piece, targets@, 0);
        }
        result
    }

    /// Return a copy of the game in which a given move has been executed,
    /// leaving the original game untouched.
    pub fn calculate_move(&self, chess_move: &Move) -> (r: ChessGame)
        requires
            self.wf(),
            exec_ok(self@, *chess_move),
        ensures
            r@ == spec_execute(self@, *chess_move),
            r.queryable(),
    {
        let mut result = self.clone();
        result.execute_move(chess_move);
        result
    }

    /// Whether a given move, when executed, leaves the moving piece's color
    /// in check.
    fn is_chess_after_move(&self, chess_move: &Move) -> (r: bool)
        requires
            self.wf(),
            exec_ok(self@, *chess_move),
        ensures
            r == check_after(self@, *chess_move),
    {
        self.calculate_move(chess_move).is_check_color(chess_move.piece.color)
    }

    /// The castling move of a king toward one side, when the nearest piece
    /// that way is a rook that has never moved.
    fn castling_move_in_dir(&self, king: &Piece, dir: Direction) -> (r: Option<Move>)
        requires
            self.queryable(),
            king.square.valid(),
        ensures
            match r {
                Some(m) => castle_dir_move(self@, *king, dir) == seq![m],
                None => castle_dir_move(self@, *king, dir) == Seq::<Move>::empty(),
            },
    {
        let cand = self.next_piece_in_direction(&king.square, &dir);
        match cand {
            None => None,
            Some(other) => {
                if other.piece_type == PieceType::Rook && !self.has_already_moved(&other)
                    && other.is_at_start() {
                    let rook_x = other.square.position().0;
                    let king_x = king.square.position().0;
                    let factor: i8 = if rook_x > king_x {
                        1
                    } else {
                        -1
                    };
                    let delta = (2 * factor, 0);
                    match self.board.square_relative(king.square, delta) {
                        Some(target_square) => Some(Move::new(*king, target_square)),
                        None => None,
                    }
                } else {
                    None
                }
            },
        }
    }

    /// All possible castling moves for a given piece.  Empty if the piece is
    /// not a king or no castling is possible for it.
    fn possible_castling_moves(&self, king: &Piece) -> (r: Vec<Move>)
        requires
            self.queryable(),
            king.square.valid(),
        ensures
            r@ == castle_moves_spec(self@, *king),
    {
        let mut result: Vec<Move> = Vec::new();
        if king.piece_type != PieceType::King || self.has_already_moved(king)
            || !king.is_at_start() {
            proof {
                assert(result@ =~= castle_moves_spec(self@, *king));
            }
            return result;
        }
        match self.castling_move_in_dir(king, Direction::E) {
            Some(m) => result.push(m),
            None => {},
        }
        match self.castling_move_in_dir(king, Direction::W) {
            Some(m) => result.push(m),
            None => {},
        }
        proof {
            assert(result@ =~= castle_moves_spec(self@, *king));
        }
        result
    }

    /// The nearest occupant around a square in each of the 16 directions, in
    /// the fixed direction order.
    pub fn square_context(&self, square: &BoardSquare) -> (r: Vec<(Direction, Option<Piece>)>)
        requires
            self.queryable(),
            square.valid(),
        ensures
            r@ == context_spec(self@, *square),
    {
        let dirs = Direction::all();
        let mut result: Vec<(Direction, Option<Piece>)> = Vec::new();
        let mut i: usize = 0;
        while i < dirs.len()
            invariant
                self.queryable(),
                square.valid(),
                i <= 16,
                dirs@ == all_directions(),
                result@ =~= context_spec(self@, *square).take(i as int),
            decreases dirs@.len() - i,
        {
            let dir = dirs[i];
            let found = self.next_piece_in_direction(square, &dir);
            result.push((dir, found));
            proof {
                assert(result@ =~= context_spec(self@, *square).take(i as int + 1));
            }
            i += 1;
        }
        proof {
            assert(result@ =~= context_spec(self@, *square));
        }
        result
    }

    /// All pieces able to move to a given target square.
    pub fn square_challengers(&self, square: &BoardSquare) -> (r: Vec<Piece>)
        requires
            self.queryable(),
            square.valid(),
        ensures
            r@ == challengers_spec(self@, *square),
    {
        let context = self.square_context(square);
        let mut result: Vec<Piece> = Vec::new();
        let mut i: usize = 0;
        while i < context.len()
            invariant
                self.queryable(),
                square.valid(),
                i <= 16,
                context@ == context_spec(self@, *square),
                result@ + challengers_from(self@, *square, i as int) == challengers_spec(
                    self@,
                    *square,
                ),
            decreases context@.len() - i,
        {
            let entry = context[i];
            match entry.1 {
                Some(p) => {
                    proof {
                        let d = all_directions()[i as int].spec_delta();
                        lemma_next_piece_in_roster(
                            self@.pieces,
                            square.sx() + d.0 as int,
                            square.sy() + d.1 as int,
                            d.0 as int,
                            d.1 as int,
                            all_directions()[i as int].spec_sliding(),
                        );
                    }
                    if self.covers_square(&p, square) {
                        result.push(p);
                    }
                },
                None => {},
            }
            proof {
                assert(result@ + challengers_from(self@, *square, i as int + 1) =~= challengers_spec(
                    self@,
                    *square,
                ));
            }
            i += 1;
        }
        result
    }

    /// Whether the given color has at least one legal move.
    pub fn can_move(&self, color: &PieceColor) -> (r: bool)
        requires
            self.wf(),
        ensures
            r == can_move_spec(self@, *color),
    {
        let mut i: usize = 0;
        while i < self.pieces.len()
            invariant
                self.wf(),
                i <= self.pieces@.len(),
                forall|j: int|
                    0 <= j < i ==> !((#[trigger] self@.pieces[j]).color == *color
                        && crate::model::possible_moves_spec(self@, self@.pieces[j]).len() > 0),
            decreases self.pieces@.len() - i,
        {
            let p = self.pieces[i];
            if p.color == *color {
                proof {
                    lemma_piece_at(self@.pieces, p.square.sx(), p.square.sy());
                    assert(crate::model::at_coord(self@.pieces[i as int], p.square.sx(), p.square.sy()));
                }
                let moves = self.possible_moves(&p);
                if moves.len() > 0 {
                    return true;
                }
            }
            i += 1;
        }
        false
    }

    /// Whether the side to move is checkmated: it is in check and has no
    /// legal move left.
    pub fn is_check_mate(&self) -> (r: bool)
        requires
            self.wf(),
        ensures
            r == checkmate_spec(self@),
    {
        let color = self.next_move_color();
        self.is_check_color(color) && !self.can_move(&color)
    }

    /// Whether the side to move is stalemated: it is not in check yet has no
    /// legal move left.
    pub fn is_stalemate(&self) -> (r: bool)
        requires
            self.wf(),
        ensures
            r == stalemate_spec(self@),
    {
        let color = self.next_move_color();
        !self.is_check_color(color) && !self.can_move(&color)
    }
}

} // verus!
