//! The mathematical model of the game.
//!
//! Every executable function of the engine is specified against the
//! functions in this module: `piece_at_spec` models roster lookup, `walk`
//! models the outward walk along one movement ray, `targets_spec` and
//! `possible_moves_spec` model move generation, `checks_spec` models check
//! detection, and `spec_execute` models what one call of `execute_move` does
//! to the whole game state.  `wf` is the invariant that all reachable game
//! states satisfy.

use vstd::prelude::*;

use crate::chessboard::{BoardSquare, spec_between, spec_square_at, square_mk, lemma_square_coords, lemma_square_mk_coords};
use crate::game::{ExecutedMove, Move};
use crate::pieces::{
    CapturePolicy, Direction, Piece, PieceColor, PieceDelta, PieceType, all_directions,
    lemma_king_deltas_shape, lemma_pawn_deltas_shape, lemma_piece_deltas_bounds,
    spec_piece_deltas,
};

verus! {

/// The abstract state of a game: the piece roster, the move history, the
/// cached checking moves, the pending promotion pawn, and the initial mover.
pub struct GameView {
    pub pieces: Seq<Piece>,
    pub moves: Seq<ExecutedMove>,
    pub checks: Seq<Move>,
    pub promo: Option<Piece>,
    pub initial: PieceColor,
}

// ---------------------------------------------------------------------------
// Roster lookup
// ---------------------------------------------------------------------------

/// Whether a piece stands on the square with the given coordinates.
pub open spec fn at_coord(p: Piece, x: int, y: int) -> bool {
    p.square.sx() == x && p.square.sy() == y
}

/// The first piece at the given coordinates, scanning from index `i`.
pub open spec fn find_piece_from(pieces: Seq<Piece>, x: int, y: int, i: int) -> Option<Piece>
    decreases pieces.len() - i,
{
    if i < 0 || i >= pieces.len() {
        None
    } else if at_coord(pieces[i], x, y) {
        Some(pieces[i])
    } else {
        find_piece_from(pieces, x, y, i + 1)
    }
}

/// The piece at the given coordinates: the first match in roster order.
pub open spec fn piece_at_spec(pieces: Seq<Piece>, x: int, y: int) -> Option<Piece> {
    find_piece_from(pieces, x, y, 0)
}

/// The piece on a given square.
pub open spec fn occupant(pieces: Seq<Piece>, sq: BoardSquare) -> Option<Piece> {
    piece_at_spec(pieces, sq.sx(), sq.sy())
}

/// All pieces stand on real squares, as do their start squares.
pub open spec fn pieces_ok(pieces: Seq<Piece>) -> bool {
    forall|i: int|
        0 <= i < pieces.len() ==> (#[trigger] pieces[i]).square.valid()
            && pieces[i].start_square.valid()
}

/// No two pieces occupy the same square.
pub open spec fn distinct_squares(pieces: Seq<Piece>) -> bool {
    forall|i: int, j: int|
        0 <= i < pieces.len() && 0 <= j < pieces.len() && i != j ==> (#[trigger] pieces[i]).square
            != (#[trigger] pieces[j]).square
}

/// What a search from index `i` finds, characterised.
pub proof fn lemma_find_from(pieces: Seq<Piece>, x: int, y: int, i: int)
    requires
        0 <= i,
    ensures
        match find_piece_from(pieces, x, y, i) {
            Some(p) => exists|j: int|
                i <= j < pieces.len() && pieces[j] == p && at_coord(#[trigger] pieces[j], x, y),
            None => forall|j: int| i <= j < pieces.len() ==> !at_coord(#[trigger] pieces[j], x, y),
        },
    decreases pieces.len() - i,
{
    if 0 <= i < pieces.len() {
        if at_coord(pieces[i], x, y) {
            assert(i <= i < pieces.len() && pieces[i] == pieces[i] && at_coord(pieces[i], x, y));
        } else {
            lemma_find_from(pieces, x, y, i + 1);
            match find_piece_from(pieces, x, y, i + 1) {
                Some(p) => {
                    let j0 = choose|j: int|
                        i + 1 <= j < pieces.len() && pieces[j] == p && at_coord(
                            #[trigger] pieces[j],
                            x,
                            y,
                        );
                    assert(i <= j0 < pieces.len() && pieces[j0] == p && at_coord(
                        pieces[j0],
                        x,
                        y,
                    ));
                },
                None => {},
            }
        }
    }
}

/// With distinct valid squares, a piece known to stand at the coordinates is
/// exactly what the search finds.
pub proof fn lemma_find_present(pieces: Seq<Piece>, x: int, y: int, i: int, j: int)
    requires
        pieces_ok(pieces),
        distinct_squares(pieces),
        0 <= i <= j < pieces.len(),
        at_coord(pieces[j], x, y),
    ensures
        find_piece_from(pieces, x, y, i) == Some(pieces[j]),
    decreases j - i,
{
    if i < j {
        assert(pieces[i].square != pieces[j].square);
        if at_coord(pieces[i], x, y) {
            lemma_square_coords(pieces[i].square);
            lemma_square_coords(pieces[j].square);
            assert(false);
        }
        lemma_find_present(pieces, x, y, i + 1, j);
    }
}

/// The roster lookup, characterised both ways under the roster invariants.
pub proof fn lemma_piece_at(pieces: Seq<Piece>, x: int, y: int)
    requires
        pieces_ok(pieces),
        distinct_squares(pieces),
    ensures
        match piece_at_spec(pieces, x, y) {
            Some(p) => pieces.contains(p) && at_coord(p, x, y),
            None => forall|j: int| 0 <= j < pieces.len() ==> !at_coord(#[trigger] pieces[j], x, y),
        },
        forall|j: int|
            0 <= j < pieces.len() && at_coord(#[trigger] pieces[j], x, y) ==> piece_at_spec(
                pieces,
                x,
                y,
            ) == Some(pieces[j]),
{
    lemma_find_from(pieces, x, y, 0);
    assert forall|j: int|
        0 <= j < pieces.len() && at_coord(#[trigger] pieces[j], x, y) implies piece_at_spec(
        pieces,
        x,
        y,
    ) == Some(pieces[j]) by {
        lemma_find_present(pieces, x, y, 0, j);
    }
}

// ---------------------------------------------------------------------------
// Roster transformations
// ---------------------------------------------------------------------------

/// A piece after relocating whatever stands on `from` to `to`.
pub open spec fn moved_piece(p: Piece, from: BoardSquare, to: BoardSquare) -> Piece {
    if p.square == from {
        Piece { piece_type: p.piece_type, color: p.color, square: to, start_square: p.start_square }
    } else {
        p
    }
}

/// The roster after relocating whatever stands on `from` to `to`.
pub open spec fn move_pieces(pieces: Seq<Piece>, from: BoardSquare, to: BoardSquare) -> Seq<Piece> {
    pieces.map_values(|p: Piece| moved_piece(p, from, to))
}

/// The roster after removing whatever stands on `sq`.
pub open spec fn remove_at(pieces: Seq<Piece>, sq: BoardSquare) -> Seq<Piece>
    decreases pieces.len(),
{
    if pieces.len() == 0 {
        pieces
    } else {
        let front = remove_at(pieces.drop_last(), sq);
        if pieces.last().square == sq {
            front
        } else {
            front.push(pieces.last())
        }
    }
}

/// What emptying a square does to a roster: membership, length, and the
/// distinctness of squares.
pub proof fn lemma_remove_at(pieces: Seq<Piece>, sq: BoardSquare)
    ensures
        remove_at(pieces, sq).len() <= pieces.len(),
        forall|q: Piece|
            remove_at(pieces, sq).contains(q) <==> (pieces.contains(q) && q.square != sq),
        distinct_squares(pieces) ==> distinct_squares(remove_at(pieces, sq)),
        distinct_squares(pieces) && (exists|j: int|
            0 <= j < pieces.len() && (#[trigger] pieces[j]).square == sq) ==> remove_at(
            pieces,
            sq,
        ).len() == pieces.len() - 1,
        (forall|j: int| 0 <= j < pieces.len() ==> (#[trigger] pieces[j]).square != sq)
            ==> remove_at(pieces, sq) == pieces,
    decreases pieces.len(),
{
    if pieces.len() > 0 {
        let prefix = pieces.drop_last();
        let front = remove_at(prefix, sq);
        let r = remove_at(pieces, sq);
        let last = pieces.last();
        lemma_remove_at(prefix, sq);
        assert(distinct_squares(pieces) ==> distinct_squares(prefix)) by {
            if distinct_squares(pieces) {
                assert forall|i: int, j: int|
                    0 <= i < prefix.len() && 0 <= j < prefix.len() && i != j implies (
                #[trigger] prefix[i]).square != (#[trigger] prefix[j]).square by {
                    assert(prefix[i] == pieces[i]);
                    assert(prefix[j] == pieces[j]);
                }
            }
        }
        assert forall|q: Piece| r.contains(q) implies (pieces.contains(q) && q.square != sq) by {
            let k = choose|k: int| 0 <= k < r.len() && r[k] == q;
            if last.square != sq && k == r.len() - 1 {
                assert(pieces[pieces.len() - 1] == q);
            } else {
                assert(front[k] == q);
                assert(remove_at(prefix, sq).contains(q));
                assert(prefix.contains(q) && q.square != sq);
                let m = choose|m: int| 0 <= m < prefix.len() && prefix[m] == q;
                assert(prefix[m] == pieces[m]);
            }
        }
        assert forall|q: Piece| pieces.contains(q) && q.square != sq implies r.contains(q) by {
            let k = choose|k: int| 0 <= k < pieces.len() && pieces[k] == q;
            if k == pieces.len() - 1 {
                assert(r[r.len() - 1] == q);
            } else {
                assert(prefix[k] == pieces[k]);
                assert(prefix.contains(q));
                assert(remove_at(prefix, sq).contains(q));
                let m = choose|m: int| 0 <= m < front.len() && front[m] == q;
                assert(r[m] == q);
            }
        }
        if distinct_squares(pieces) {
            assert forall|i: int, j: int|
                0 <= i < r.len() && 0 <= j < r.len() && i != j implies (#[trigger] r[i]).square != (
            #[trigger] r[j]).square by {
                if last.square != sq && i == r.len() - 1 {
                    assert(remove_at(prefix, sq).contains(r[j])) by { assert(front[j] == r[j]); }
                    assert(prefix.contains(r[j]));
                    let m = choose|m: int| 0 <= m < prefix.len() && prefix[m] == r[j];
                    assert(prefix[m] == pieces[m]);
                    assert(pieces[m].square != pieces[pieces.len() - 1].square);
                } else if last.square != sq && j == r.len() - 1 {
                    assert(remove_at(prefix, sq).contains(r[i])) by { assert(front[i] == r[i]); }
                    assert(prefix.contains(r[i]));
                    let m = choose|m: int| 0 <= m < prefix.len() && prefix[m] == r[i];
                    assert(prefix[m] == pieces[m]);
                    assert(pieces[m].square != pieces[pieces.len() - 1].square);
                } else {
                    assert(r[i] == front[i]);
                    assert(r[j] == front[j]);
                }
            }
            if exists|j: int| 0 <= j < pieces.len() && (#[trigger] pieces[j]).square == sq {
                let j = choose|j: int| 0 <= j < pieces.len() && (#[trigger] pieces[j]).square == sq;
                if j == pieces.len() - 1 {
                    assert forall|m: int| 0 <= m < prefix.len() implies (
                    #[trigger] prefix[m]).square != sq by {
                        assert(prefix[m] == pieces[m]);
                        assert(pieces[m].square != pieces[pieces.len() - 1].square);
                    }
                } else {
                    assert(prefix[j] == pieces[j]);
                    assert(exists|m: int|
                        0 <= m < prefix.len() && (#[trigger] prefix[m]).square == sq);
                    assert(last.square != sq);
                }
            }
        }
        if forall|j: int| 0 <= j < pieces.len() ==> (#[trigger] pieces[j]).square != sq {
            assert forall|m: int| 0 <= m < prefix.len() implies (#[trigger] prefix[m]).square
                != sq by {
                assert(prefix[m] == pieces[m]);
            }
            assert(pieces[pieces.len() - 1].square != sq);
            assert(front.push(last) =~= pieces);
        }
    }
}

// ---------------------------------------------------------------------------
// History-derived state
// ---------------------------------------------------------------------------

/// The sign of an integer.
pub open spec fn sgn(x: int) -> int {
    if x > 0 {
        1
    } else if x < 0 {
        -1
    } else {
        0
    }
}

/// The coordinate delta of an executed move.
pub open spec fn move_delta(em: ExecutedMove) -> (int, int) {
    (
        em.target_square.sx() - em.start_square.sx(),
        em.target_square.sy() - em.start_square.sy(),
    )
}

/// The current en-passant target: the square directly behind a pawn that has
/// just advanced two ranks; absent otherwise.
pub open spec fn ep_target_spec(v: GameView) -> Option<BoardSquare> {
    if v.moves.len() == 0 {
        None
    } else {
        let last = v.moves.last();
        if last.piece.piece_type != PieceType::Pawn {
            None
        } else {
            let d = move_delta(last);
            if d.1 != 2 && d.1 != -2 {
                None
            } else {
                spec_square_at(last.start_square.sx() + d.0, last.start_square.sy() + sgn(d.1))
            }
        }
    }
}

/// Whether a piece has already moved, judged by the history: some executed
/// move started at the piece's start square.
pub open spec fn has_moved_spec(v: GameView, p: Piece) -> bool {
    exists|i: int| 0 <= i < v.moves.len() && (#[trigger] v.moves[i]).start_square == p.start_square
}

/// The color whose turn it is, from history length parity.
pub open spec fn next_color_spec(v: GameView) -> PieceColor {
    if v.moves.len() % 2 == 0 {
        v.initial
    } else {
        v.initial.spec_opponent()
    }
}

// ---------------------------------------------------------------------------
// Rays and walks
// ---------------------------------------------------------------------------

/// A bound on the remaining steps of a ray walk, used for termination.
pub open spec fn ray_measure(x: int, y: int, dx: int, dy: int) -> int {
    let m = if dx > 0 {
        8 - x
    } else if dx < 0 {
        x + 1
    } else if dy > 0 {
        8 - y
    } else {
        y + 1
    };
    if m < 0 {
        0
    } else {
        m
    }
}

/// The nearest occupant on the ray from (x, y) (inclusive) in steps of
/// (dx, dy).  Sliding rays walk through empty squares; a non-sliding ray
/// looks only at (x, y) itself.
pub open spec fn next_piece_from(
    pieces: Seq<Piece>,
    x: int,
    y: int,
    dx: int,
    dy: int,
    sliding: bool,
) -> Option<Piece>
    decreases ray_measure(x, y, dx, dy),
{
    if 0 <= x < 8 && 0 <= y < 8 && piece_at_spec(pieces, x, y) is None && sliding && (dx != 0 || dy
        != 0) && (-2 <= dx <= 2 && -2 <= dy <= 2) {
        next_piece_from(pieces, x + dx, y + dy, dx, dy, sliding)
    } else {
        piece_at_spec(pieces, x, y)
    }
}

/// The nearest occupant seen from a square in a direction (the square itself
/// is not considered).
pub open spec fn next_piece_spec(v: GameView, sq: BoardSquare, dir: Direction) -> Option<Piece> {
    let d = dir.spec_delta();
    next_piece_from(
        v.pieces,
        sq.sx() + d.0,
        sq.sy() + d.1,
        d.0 as int,
        d.1 as int,
        dir.spec_sliding(),
    )
}

/// What the nearest-occupant walk guarantees: the result stands somewhere on
/// the ray, every square strictly before it on the ray is empty, and for a
/// non-sliding ray it stands at the very first square.
pub proof fn lemma_next_piece_from(
    pieces: Seq<Piece>,
    x: int,
    y: int,
    dx: int,
    dy: int,
    sliding: bool,
)
    requires
        -2 <= dx <= 2,
        -2 <= dy <= 2,
        dx != 0 || dy != 0,
    ensures
        match next_piece_from(pieces, x, y, dx, dy, sliding) {
            Some(p) => exists|k: int|
                0 <= k && #[trigger] trig_step(k) && piece_at_spec(pieces, x + k * dx, y + k * dy)
                    == Some(p) && (sliding || k == 0) && (forall|j: int|
                    0 <= j < k && #[trigger] trig_step(j) ==> piece_at_spec(
                        pieces,
                        x + j * dx,
                        y + j * dy,
                    ) is None && inside(x + j * dx, y + j * dy)),
            None => true,
        },
    decreases ray_measure(x, y, dx, dy),
{
    if 0 <= x < 8 && 0 <= y < 8 && piece_at_spec(pieces, x, y) is None && sliding {
        lemma_next_piece_from(pieces, x + dx, y + dy, dx, dy, sliding);
        if next_piece_from(pieces, x, y, dx, dy, sliding) is Some {
            let k = choose|k: int|
                0 <= k && #[trigger] trig_step(k) && piece_at_spec(
                    pieces,
                    (x + dx) + k * dx,
                    (y + dy) + k * dy,
                ) == Some(next_piece_from(pieces, x, y, dx, dy, sliding).unwrap()) && (sliding || k
                    == 0) && (forall|j: int|
                    0 <= j < k && #[trigger] trig_step(j) ==> piece_at_spec(
                        pieces,
                        (x + dx) + j * dx,
                        (y + dy) + j * dy,
                    ) is None && inside((x + dx) + j * dx, (y + dy) + j * dy));
            assert(trig_step(k + 1));
            assert(x + (k + 1) * dx == (x + dx) + k * dx) by (nonlinear_arith);
            assert(y + (k + 1) * dy == (y + dy) + k * dy) by (nonlinear_arith);
            assert forall|j: int|
                0 <= j < k + 1 && #[trigger] trig_step(j) implies piece_at_spec(
                pieces,
                x + j * dx,
                y + j * dy,
            ) is None && inside(x + j * dx, y + j * dy) by {
                if j == 0 {
                } else {
                    assert(trig_step(j - 1));
                    assert(piece_at_spec(pieces, (x + dx) + (j - 1) * dx, (y + dy) + (j - 1) * dy)
                        is None && inside((x + dx) + (j - 1) * dx, (y + dy) + (j - 1) * dy));
                    assert(x + j * dx == (x + dx) + (j - 1) * dx) by (nonlinear_arith);
                    assert(y + j * dy == (y + dy) + (j - 1) * dy) by (nonlinear_arith);
                }
            }
        }
    } else {
        if next_piece_from(pieces, x, y, dx, dy, sliding) is Some {
            assert(trig_step(0));
            assert(x + 0 * dx == x);
            assert(y + 0 * dy == y);
        }
    }
}

/// A found nearest occupant is a roster piece.
pub proof fn lemma_next_piece_in_roster(
    pieces: Seq<Piece>,
    x: int,
    y: int,
    dx: int,
    dy: int,
    sliding: bool,
)
    ensures
        match next_piece_from(pieces, x, y, dx, dy, sliding) {
            Some(p) => exists|j: int| 0 <= j < pieces.len() && pieces[j] == p,
            None => true,
        },
    decreases ray_measure(x, y, dx, dy),
{
    if 0 <= x < 8 && 0 <= y < 8 && piece_at_spec(pieces, x, y) is None && sliding && (dx != 0 || dy
        != 0) && (-2 <= dx <= 2 && -2 <= dy <= 2) {
        lemma_next_piece_in_roster(pieces, x + dx, y + dy, dx, dy, sliding);
    } else {
        lemma_find_from(pieces, x, y, 0);
    }
}

/// Trigger marker for step counts along a ray.
pub open spec fn trig_step(k: int) -> bool {
    true
}

/// Whether coordinates lie on the board.
pub open spec fn inside(x: int, y: int) -> bool {
    0 <= x < 8 && 0 <= y < 8
}

/// The squares a piece can reach along one ray, walking outward from step
/// `dist`: empty squares are reachable unless the ray captures mandatorily
/// (then only the en-passant target is), and the first occupant ends the
/// walk, reachable exactly when it is an enemy and the ray may capture.
pub open spec fn walk(v: GameView, p: Piece, pd: PieceDelta, dist: int) -> Seq<BoardSquare>
    decreases pd.max_distance - dist + 1,
{
    if dist < 1 || dist > pd.max_distance {
        Seq::<BoardSquare>::empty()
    } else {
        match spec_square_at(
            p.square.sx() + pd.delta.0 * dist,
            p.square.sy() + pd.delta.1 * dist,
        ) {
            None => Seq::<BoardSquare>::empty(),
            Some(sq) => match occupant(v.pieces, sq) {
                None => {
                    let here = if pd.capture_policy != CapturePolicy::Mandatory {
                        seq![sq]
                    } else if ep_target_spec(v) == Some(sq) {
                        seq![sq]
                    } else {
                        Seq::<BoardSquare>::empty()
                    };
                    here + walk(v, p, pd, dist + 1)
                },
                Some(other) => {
                    if pd.spec_may_capture() && other.color != p.color {
                        seq![sq]
                    } else {
                        Seq::<BoardSquare>::empty()
                    }
                },
            },
        }
    }
}

/// The reachable squares over a list of rays, from ray `i` on.
pub open spec fn walk_all_from(v: GameView, p: Piece, ds: Seq<PieceDelta>, i: int) -> Seq<
    BoardSquare,
>
    decreases ds.len() - i,
{
    if i < 0 || i >= ds.len() {
        Seq::<BoardSquare>::empty()
    } else {
        walk(v, p, ds[i], 1) + walk_all_from(v, p, ds, i + 1)
    }
}

/// What membership in a walk guarantees: the square lies some number of
/// steps out on the ray, inside the board, every square strictly before it
/// on the ray is empty, and it is either empty or holds a capturable enemy.
pub open spec fn walk_target_ok(v: GameView, p: Piece, pd: PieceDelta, d: int, t: BoardSquare) -> bool {
    exists|k: int|
        d <= k <= pd.max_distance && #[trigger] trig_step(k) && t == square_mk(
            p.square.sx() + pd.delta.0 * k,
            p.square.sy() + pd.delta.1 * k,
        ) && inside(p.square.sx() + pd.delta.0 * k, p.square.sy() + pd.delta.1 * k) && (occupant(
            v.pieces,
            t,
        ) is None || (pd.spec_may_capture() && occupant(v.pieces, t).unwrap().color != p.color))
            && (forall|j: int|
            d <= j < k && #[trigger] trig_step(j) ==> piece_at_spec(
                v.pieces,
                p.square.sx() + pd.delta.0 * j,
                p.square.sy() + pd.delta.1 * j,
            ) is None && inside(p.square.sx() + pd.delta.0 * j, p.square.sy() + pd.delta.1 * j))
}

/// Every member of a walk satisfies `walk_target_ok`.
pub proof fn lemma_walk_member(v: GameView, p: Piece, pd: PieceDelta, d: int)
    requires
        d >= 1,
    ensures
        forall|i: int|
            0 <= i < walk(v, p, pd, d).len() ==> walk_target_ok(
                v,
                p,
                pd,
                d,
                #[trigger] walk(v, p, pd, d)[i],
            ),
    decreases pd.max_distance - d + 1,
{
    if d < 1 || d > pd.max_distance {
    } else {
        let x = p.square.sx() + pd.delta.0 * d;
        let y = p.square.sy() + pd.delta.1 * d;
        match spec_square_at(x, y) {
            None => {},
            Some(sq) => {
                lemma_square_mk_coords(x, y);
                match occupant(v.pieces, sq) {
                    None => {
                        lemma_walk_member(v, p, pd, d + 1);
                        let here = if pd.capture_policy != CapturePolicy::Mandatory {
                            seq![sq]
                        } else if ep_target_spec(v) == Some(sq) {
                            seq![sq]
                        } else {
                            Seq::<BoardSquare>::empty()
                        };
                        assert forall|i: int|
                            0 <= i < walk(v, p, pd, d).len() implies walk_target_ok(
                            v,
                            p,
                            pd,
                            d,
                            #[trigger] walk(v, p, pd, d)[i],
                        ) by {
                            if i < here.len() {
                                assert(walk(v, p, pd, d)[i] == sq);
                                assert(trig_step(d));
                                assert(walk_target_ok(v, p, pd, d, sq));
                            } else {
                                let t = walk(v, p, pd, d)[i];
                                assert(t == walk(v, p, pd, d + 1)[i - here.len()]);
                                assert(walk_target_ok(v, p, pd, d + 1, t));
                                let k = choose|k: int|
                                    d + 1 <= k <= pd.max_distance && #[trigger] trig_step(k) && t
                                        == square_mk(
                                        p.square.sx() + pd.delta.0 * k,
                                        p.square.sy() + pd.delta.1 * k,
                                    ) && inside(
                                        p.square.sx() + pd.delta.0 * k,
                                        p.square.sy() + pd.delta.1 * k,
                                    ) && (occupant(v.pieces, t) is None || (pd.spec_may_capture()
                                        && occupant(v.pieces, t).unwrap().color != p.color)) && (
                                    forall|j: int|
                                        d + 1 <= j < k && #[trigger] trig_step(j) ==> piece_at_spec(
                                            v.pieces,
                                            p.square.sx() + pd.delta.0 * j,
                                            p.square.sy() + pd.delta.1 * j,
                                        ) is None && inside(
                                            p.square.sx() + pd.delta.0 * j,
                                            p.square.sy() + pd.delta.1 * j,
                                        ));
                                assert forall|j: int|
                                    d <= j < k && #[trigger] trig_step(j) implies piece_at_spec(
                                    v.pieces,
                                    p.square.sx() + pd.delta.0 * j,
                                    p.square.sy() + pd.delta.1 * j,
                                ) is None && inside(
                                    p.square.sx() + pd.delta.0 * j,
                                    p.square.sy() + pd.delta.1 * j,
                                ) by {
                                    if j == d {
                                        assert(piece_at_spec(v.pieces, x, y) is None);
                                    }
                                }
                                assert(walk_target_ok(v, p, pd, d, t));
                            }
                        }
                    },
                    Some(other) => {
                        if pd.spec_may_capture() && other.color != p.color {
                            assert forall|i: int|
                                0 <= i < walk(v, p, pd, d).len() implies walk_target_ok(
                                v,
                                p,
                                pd,
                                d,
                                #[trigger] walk(v, p, pd, d)[i],
                            ) by {
                                assert(walk(v, p, pd, d)[i] == sq);
                                assert(trig_step(d));
                            }
                        }
                    },
                }
            },
        }
    }
}

/// Whether some ray (from index `i` on) reaches a square in its walk.
pub open spec fn in_some_walk(v: GameView, p: Piece, ds: Seq<PieceDelta>, i: int, t: BoardSquare) -> bool {
    exists|k: int| i <= k < ds.len() && #[trigger] trig_step(k) && walk(v, p, ds[k], 1).contains(t)
}

/// Every member of the union of walks belongs to the walk of one ray.
pub proof fn lemma_walk_all_member(v: GameView, p: Piece, ds: Seq<PieceDelta>, i: int)
    ensures
        forall|j: int|
            0 <= j < walk_all_from(v, p, ds, i).len() ==> in_some_walk(
                v,
                p,
                ds,
                i,
                #[trigger] walk_all_from(v, p, ds, i)[j],
            ),
    decreases ds.len() - i,
{
    if 0 <= i < ds.len() {
        lemma_walk_all_member(v, p, ds, i + 1);
        assert forall|j: int| 0 <= j < walk_all_from(v, p, ds, i).len() implies in_some_walk(
            v,
            p,
            ds,
            i,
            #[trigger] walk_all_from(v, p, ds, i)[j],
        ) by {
            let t = walk_all_from(v, p, ds, i)[j];
            if j < walk(v, p, ds[i], 1).len() {
                assert(walk(v, p, ds[i], 1)[j] == t);
                assert(walk(v, p, ds[i], 1).contains(t));
                assert(trig_step(i));
            } else {
                let jj = j - walk(v, p, ds[i], 1).len();
                assert(walk_all_from(v, p, ds, i + 1)[jj] == t);
                assert(in_some_walk(v, p, ds, i + 1, t));
                let k = choose|k: int|
                    i + 1 <= k < ds.len() && #[trigger] trig_step(k) && walk(
                        v,
                        p,
                        ds[k],
                        1,
                    ).contains(t);
                assert(trig_step(k));
                assert(in_some_walk(v, p, ds, i, t));
            }
        }
    }
}

// ---------------------------------------------------------------------------
// Castling
// ---------------------------------------------------------------------------

/// The castling move towards one side, when a never-moved rook is the nearest
/// occupant in that direction and the king's two-file target exists.
pub open spec fn castle_dir_move(v: GameView, k: Piece, dir: Direction) -> Seq<Move> {
    match next_piece_spec(v, k.square, dir) {
        Some(r) => {
            if r.piece_type == PieceType::Rook && !has_moved_spec(v, r) && r.square
                == r.start_square {
                let factor: int = if r.square.sx() > k.square.sx() {
                    1
                } else {
                    -1
                };
                match spec_square_at(k.square.sx() + 2 * factor, k.square.sy()) {
                    Some(t) => seq![Move { piece: k, target: t }],
                    None => Seq::<Move>::empty(),
                }
            } else {
                Seq::<Move>::empty()
            }
        },
        None => Seq::<Move>::empty(),
    }
}

/// All castling moves of a piece: none unless it is a king that has never
/// moved (still at its start square, with no history entry from it).
pub open spec fn castle_moves_spec(v: GameView, k: Piece) -> Seq<Move> {
    if k.piece_type != PieceType::King || has_moved_spec(v, k) || k.square != k.start_square {
        Seq::<Move>::empty()
    } else {
        castle_dir_move(v, k, Direction::E) + castle_dir_move(v, k, Direction::W)
    }
}

// ---------------------------------------------------------------------------
// Move generation (unfiltered targets)
// ---------------------------------------------------------------------------

/// All target squares of a piece before legality filtering: the union of the
/// walks over its rays, then any castling targets.
pub open spec fn targets_spec(v: GameView, p: Piece) -> Seq<BoardSquare> {
    walk_all_from(v, p, spec_piece_deltas(p), 0) + castle_moves_spec(v, p).map_values(
        |m: Move| m.target,
    )
}

/// Whether the unfiltered movement geometry of `p` covers the coordinates of
/// square `sq`.
pub open spec fn covers(v: GameView, p: Piece, sq: BoardSquare) -> bool {
    exists|j: int|
        0 <= j < targets_spec(v, p).len() && (#[trigger] targets_spec(v, p)[j]).sx() == sq.sx()
            && targets_spec(v, p)[j].sy() == sq.sy()
}

// ---------------------------------------------------------------------------
// Attack analysis
// ---------------------------------------------------------------------------

/// The nearest occupants around a square, one entry per direction, in the
/// fixed direction order.
pub open spec fn context_spec(v: GameView, sq: BoardSquare) -> Seq<(Direction, Option<Piece>)> {
    Seq::new(16, |i: int| (all_directions()[i], next_piece_spec(v, sq, all_directions()[i])))
}

/// The challengers of a square reported from direction index `i` on: nearest
/// occupants whose own movement geometry covers the square.
pub open spec fn challengers_from(v: GameView, sq: BoardSquare, i: int) -> Seq<Piece>
    decreases 16 - i,
{
    if i < 0 || i >= 16 {
        Seq::<Piece>::empty()
    } else {
        let rest = challengers_from(v, sq, i + 1);
        match next_piece_spec(v, sq, all_directions()[i]) {
            Some(p) => if covers(v, p, sq) {
                seq![p] + rest
            } else {
                rest
            },
            None => rest,
        }
    }
}

/// All pieces able to move to a given square.
pub open spec fn challengers_spec(v: GameView, sq: BoardSquare) -> Seq<Piece> {
    challengers_from(v, sq, 0)
}

/// The checking moves contributed by one king and the challenger list of its
/// square, from index `j` on: one move per opposing challenger.
pub open spec fn king_checks_from(king: Piece, cs: Seq<Piece>, j: int) -> Seq<Move>
    decreases cs.len() - j,
{
    if j < 0 || j >= cs.len() {
        Seq::<Move>::empty()
    } else {
        let rest = king_checks_from(king, cs, j + 1);
        if cs[j].color != king.color {
            seq![Move { piece: cs[j], target: king.square }] + rest
        } else {
            rest
        }
    }
}

/// The checking moves of the whole position, scanning the roster from index
/// `i` for kings.
pub open spec fn checks_from(v: GameView, i: int) -> Seq<Move>
    decreases v.pieces.len() - i,
{
    if i < 0 || i >= v.pieces.len() {
        Seq::<Move>::empty()
    } else {
        let rest = checks_from(v, i + 1);
        if v.pieces[i].piece_type == PieceType::King {
            king_checks_from(v.pieces[i], challengers_spec(v, v.pieces[i].square), 0) + rest
        } else {
            rest
        }
    }
}

/// All moves that denote a check in the current position.
pub open spec fn checks_spec(v: GameView) -> Seq<Move> {
    checks_from(v, 0)
}

/// Whether the king of the given color is in check: some checking move is
/// made by a piece of the other color.
pub open spec fn is_check_color_spec(v: GameView, color: PieceColor) -> bool {
    exists|i: int| 0 <= i < checks_spec(v).len() && (#[trigger] checks_spec(v)[i]).piece.color != color
}

/// Whether any king is in check.
pub open spec fn is_check_spec(v: GameView) -> bool {
    is_check_color_spec(v, PieceColor::White) || is_check_color_spec(v, PieceColor::Black)
}

// ---------------------------------------------------------------------------
// Promotion
// ---------------------------------------------------------------------------

/// Whether a square lies on the farthest rank of either side.
pub open spec fn on_last_rank(sq: BoardSquare) -> bool {
    sq.row == '1' || sq.row == '8'
}

/// The first pawn standing on a farthest rank, scanning from index `i`.
pub open spec fn promo_scan_from(pieces: Seq<Piece>, i: int) -> Option<Piece>
    decreases pieces.len() - i,
{
    if i < 0 || i >= pieces.len() {
        None
    } else if pieces[i].piece_type == PieceType::Pawn && on_last_rank(pieces[i].square) {
        Some(pieces[i])
    } else {
        promo_scan_from(pieces, i + 1)
    }
}

/// The pawn that must be promoted before play may continue, if any.
pub open spec fn promo_scan(pieces: Seq<Piece>) -> Option<Piece> {
    promo_scan_from(pieces, 0)
}

// ---------------------------------------------------------------------------
// Move execution
// ---------------------------------------------------------------------------

/// Whether an execution request passes the silent-drop gates: it is not a
/// null move, no promotion is pending, and it is the mover's turn.
pub open spec fn gates_pass(v: GameView, m: Move) -> bool {
    m.piece.square != m.target && v.promo is None && next_color_spec(v) == m.piece.color
}

/// Whether the request executes as an en-passant capture.
pub open spec fn ep_fires(v: GameView, m: Move) -> bool {
    ep_target_spec(v) == Some(m.target)
}

/// Whether the request executes as an ordinary capture.
pub open spec fn capture_fires(v: GameView, m: Move) -> bool {
    !ep_fires(v, m) && occupant(v.pieces, m.target) is Some
}

/// The rook used if the request executes as castling: the corner occupant on
/// the target's rank, looked up only for a king moving two or more files.
pub open spec fn castling_rook_spec(v: GameView, m: Move) -> Option<Piece> {
    if m.piece.piece_type != PieceType::King {
        None
    } else {
        let d = m.piece.square.sx() - m.target.sx();
        if -2 < d < 2 {
            None
        } else if m.target.column == 'g' {
            piece_at_spec(v.pieces, 7, m.target.sy())
        } else {
            piece_at_spec(v.pieces, 0, m.target.sy())
        }
    }
}

/// Whether the request executes as castling.
pub open spec fn castle_fires(v: GameView, m: Move) -> bool {
    !ep_fires(v, m) && !capture_fires(v, m) && castling_rook_spec(v, m) is Some
}

/// The roster after the atomic two-piece castling relocation: the king moves
/// two files toward the rook, the rook lands beside the king's new square on
/// the side the king came from.
pub open spec fn castle_apply(pieces: Seq<Piece>, king: Piece, rook: Piece) -> Seq<Piece> {
    let kingside = king.square.sx() < rook.square.sx();
    let kt = square_mk(
        king.square.sx() + if kingside {
            2int
        } else {
            -2int
        },
        king.square.sy(),
    );
    let rt = square_mk(
        rook.square.sx() + if kingside {
            -2int
        } else {
            3int
        },
        rook.square.sy(),
    );
    move_pieces(move_pieces(pieces, king.square, kt), rook.square, rt)
}

/// The roster after an execution request that passed the gates, and whether
/// the executed move counts as a capture.
pub open spec fn apply_move(v: GameView, m: Move) -> (Seq<Piece>, bool) {
    if ep_fires(v, m) {
        (move_pieces(remove_at(v.pieces, v.moves.last().target_square), m.piece.square, m.target), true)
    } else if occupant(v.pieces, m.target) is Some {
        (move_pieces(remove_at(v.pieces, m.target), m.piece.square, m.target), true)
    } else if castling_rook_spec(v, m) is Some {
        (castle_apply(v.pieces, m.piece, castling_rook_spec(v, m).unwrap()), false)
    } else {
        (move_pieces(v.pieces, m.piece.square, m.target), false)
    }
}

/// The whole game state after one `execute_move` request: unchanged when a
/// gate drops the request; otherwise the roster is transformed, the history
/// gains exactly one entry (whose check flag is computed against the old
/// history, matching the still-open en-passant window), the checking-move
/// cache is recomputed, and the pending promotion pawn is rescanned.
pub open spec fn spec_execute(v: GameView, m: Move) -> GameView {
    if !gates_pass(v, m) {
        v
    } else {
        let pieces1 = apply_move(v, m).0;
        let em = ExecutedMove {
            piece: m.piece,
            start_square: m.piece.square,
            target_square: m.target,
            is_capture: apply_move(v, m).1,
            is_chess: is_check_spec(GameView { pieces: pieces1, ..v }),
        };
        let moves1 = v.moves.push(em);
        GameView {
            pieces: pieces1,
            moves: moves1,
            checks: checks_spec(GameView { pieces: pieces1, moves: moves1, ..v }),
            promo: promo_scan(pieces1),
            initial: v.initial,
        }
    }
}

/// A piece with its type replaced when it stands on the given square.
pub open spec fn retyped_piece(p: Piece, sq: BoardSquare, t: PieceType) -> Piece {
    if p.square == sq {
        Piece { piece_type: t, color: p.color, square: p.square, start_square: p.start_square }
    } else {
        p
    }
}

/// The roster with the type of whatever stands on `sq` replaced by `t`.
pub open spec fn retype_at(pieces: Seq<Piece>, sq: BoardSquare, t: PieceType) -> Seq<Piece> {
    pieces.map_values(|p: Piece| retyped_piece(p, sq, t))
}

/// The whole game state after resolving the pending promotion: the pawn's
/// type is replaced in place, the pending flag clears, and the checking-move
/// cache is recomputed.
pub open spec fn spec_exchange(v: GameView, new_type: PieceType) -> GameView {
    match v.promo {
        None => v,
        Some(pp) => {
            let pieces1 = retype_at(v.pieces, pp.square, new_type);
            let mid = GameView {
                pieces: pieces1,
                moves: v.moves,
                checks: v.checks,
                promo: None,
                initial: v.initial,
            };
            GameView {
                pieces: pieces1,
                moves: v.moves,
                checks: checks_spec(mid),
                promo: None,
                initial: v.initial,
            }
        },
    }
}

/// Relocating onto a real square keeps every piece on a real square.
pub proof fn lemma_pieces_ok_move(pieces: Seq<Piece>, from: BoardSquare, to: BoardSquare)
    requires
        pieces_ok(pieces),
        to.valid(),
    ensures
        pieces_ok(move_pieces(pieces, from, to)),
{
    assert forall|i: int| 0 <= i < move_pieces(pieces, from, to).len() implies (
    #[trigger] move_pieces(pieces, from, to)[i]).square.valid() && move_pieces(
        pieces,
        from,
        to,
    )[i].start_square.valid() by {
        assert(move_pieces(pieces, from, to)[i] == moved_piece(pieces[i], from, to));
    }
}

/// Removal keeps every piece on a real square.
pub proof fn lemma_pieces_ok_remove(pieces: Seq<Piece>, sq: BoardSquare)
    requires
        pieces_ok(pieces),
    ensures
        pieces_ok(remove_at(pieces, sq)),
{
    lemma_remove_at(pieces, sq);
    let r = remove_at(pieces, sq);
    assert forall|i: int| 0 <= i < r.len() implies (#[trigger] r[i]).square.valid()
        && r[i].start_square.valid() by {
        let q = r[i];
        assert(remove_at(pieces, sq).contains(q)) by {
            assert(remove_at(pieces, sq)[i] == q);
        }
        assert(pieces.contains(q) && q.square != sq);
        let j = choose|j: int| 0 <= j < pieces.len() && pieces[j] == q;
        assert(pieces[j].square.valid());
    }
}

/// Replacing a type keeps every piece on its square.
pub proof fn lemma_pieces_ok_retype(pieces: Seq<Piece>, sq: BoardSquare, t: PieceType)
    requires
        pieces_ok(pieces),
    ensures
        pieces_ok(retype_at(pieces, sq, t)),
{
    assert forall|i: int| 0 <= i < retype_at(pieces, sq, t).len() implies (
    #[trigger] retype_at(pieces, sq, t)[i]).square.valid() && retype_at(
        pieces,
        sq,
        t,
    )[i].start_square.valid() by {
        assert(retype_at(pieces, sq, t)[i] == retyped_piece(pieces[i], sq, t));
    }
}

// ---------------------------------------------------------------------------
// The reachable-state invariant
// ---------------------------------------------------------------------------

/// The back rank of a color: where its royal pieces start.
pub open spec fn std_y(c: PieceColor) -> int {
    if c == PieceColor::White {
        7
    } else {
        0
    }
}

/// The rank where the pawns of a color start.
pub open spec fn std_pawn_y(c: PieceColor) -> int {
    if c == PieceColor::White {
        6
    } else {
        1
    }
}

/// The piece type that starts the game on a given square for a given color,
/// when that square is one of the color's sixteen start squares.
pub open spec fn std_type_at(sq: BoardSquare, c: PieceColor) -> Option<PieceType> {
    if sq.sy() == std_pawn_y(c) {
        Some(PieceType::Pawn)
    } else if sq.sy() == std_y(c) {
        if sq.sx() == 0 || sq.sx() == 7 {
            Some(PieceType::Rook)
        } else if sq.sx() == 1 || sq.sx() == 6 {
            Some(PieceType::Knight)
        } else if sq.sx() == 2 || sq.sx() == 5 {
            Some(PieceType::Bishop)
        } else if sq.sx() == 3 {
            Some(PieceType::Queen)
        } else {
            Some(PieceType::King)
        }
    } else {
        None
    }
}

/// Pedigree: every piece was created on one of its color's start squares,
/// and a piece that has never moved still has the type that square starts
/// (promotion only retypes pieces that have moved).
pub open spec fn pedigree_ok(v: GameView) -> bool {
    forall|i: int|
        0 <= i < v.pieces.len() ==> {
            let p = #[trigger] v.pieces[i];
            std_type_at(p.start_square, p.color) is Some && (has_moved_spec(v, p) || std_type_at(
                p.start_square,
                p.color,
            ) == Some(p.piece_type))
        }
}

/// History coherence: a piece away from its start square has a history entry
/// starting there — except rooks, which castling relocates without an entry
/// of their own.
pub open spec fn history_ok(v: GameView) -> bool {
    forall|i: int|
        0 <= i < v.pieces.len() ==> {
            let p = #[trigger] v.pieces[i];
            p.square != p.start_square && p.piece_type != PieceType::Rook ==> has_moved_spec(v, p)
        }
}

/// The executed moves all name real board squares.
pub open spec fn entries_ok(moves: Seq<ExecutedMove>) -> bool {
    forall|i: int|
        0 <= i < moves.len() ==> (#[trigger] moves[i]).start_square.valid()
            && moves[i].target_square.valid()
}

/// The en-passant window is coherent: the target square is empty, and the
/// piece the capture would remove still stands where the double step ended,
/// owned by the player who made that double step (the one not to move).
pub open spec fn ep_ok(v: GameView) -> bool {
    ep_target_spec(v) is Some ==> {
        &&& occupant(v.pieces, ep_target_spec(v).unwrap()) is None
        &&& v.moves.len() > 0
        &&& match occupant(v.pieces, v.moves.last().target_square) {
            Some(q) => q.color == v.moves.last().piece.color && v.moves.last().piece.color
                == next_color_spec(v).spec_opponent(),
            None => false,
        }
    }
}

/// The pending promotion is coherent: the recorded pawn really stands in the
/// roster, as a pawn, on a farthest rank.
pub open spec fn promo_ok(v: GameView) -> bool {
    match v.promo {
        None => true,
        Some(pp) => occupant(v.pieces, pp.square) == Some(pp) && pp.piece_type == PieceType::Pawn
            && on_last_rank(pp.square) && pp.square.valid(),
    }
}

/// The invariant of all reachable game states.
pub open spec fn wf(v: GameView) -> bool {
    &&& pieces_ok(v.pieces)
    &&& distinct_squares(v.pieces)
    &&& entries_ok(v.moves)
    &&& pedigree_ok(v)
    &&& history_ok(v)
    &&& ep_ok(v)
    &&& promo_ok(v)
}

// ---------------------------------------------------------------------------
// What execute_move demands of its callers
// ---------------------------------------------------------------------------

/// For a pawn double step the transit square must be empty and the moving
/// pawn must really stand in the roster; legal double pushes satisfy this.
pub open spec fn double_push_ok(v: GameView, m: Move) -> bool {
    (m.piece.piece_type == PieceType::Pawn && (m.target.sy() - m.piece.square.sy() == 2
        || m.target.sy() - m.piece.square.sy() == -2)) ==> {
        let ty = m.piece.square.sy() + sgn(m.target.sy() - m.piece.square.sy());
        &&& occupant(v.pieces, m.piece.square) == Some(m.piece)
        &&& (piece_at_spec(v.pieces, m.target.sx(), ty) is None || !inside(m.target.sx(), ty))
    }
}

/// A castling execution request must come from real castling eligibility:
/// the king stands unmoved in the roster on its file-e start square, the
/// corner occupant the execution will relocate is the never-moved rook that
/// is the nearest occupant toward the target, and the target is two files
/// from the king on its own rank.  Moves produced by `possible_moves`
/// satisfy this.
pub open spec fn legit_castle(v: GameView, m: Move) -> bool {
    &&& occupant(v.pieces, m.piece.square) == Some(m.piece)
    &&& m.piece.piece_type == PieceType::King
    &&& !has_moved_spec(v, m.piece)
    &&& m.piece.square == m.piece.start_square
    &&& m.piece.square.sx() == 4
    &&& m.target.sy() == m.piece.square.sy()
    &&& match castling_rook_spec(v, m) {
        Some(r) => {
            &&& r.piece_type == PieceType::Rook
            &&& !has_moved_spec(v, r)
            &&& r.square == r.start_square
            &&& r.square.sy() == m.piece.square.sy()
            &&& ((r.square.sx() == 7 && m.target.sx() == 6) || (r.square.sx() == 0
                && m.target.sx() == 2))
            &&& next_piece_spec(
                v,
                m.piece.square,
                if r.square.sx() == 7 {
                    Direction::E
                } else {
                    Direction::W
                },
            ) == Some(r)
        },
        None => false,
    }
}

/// What `execute_move` requires beyond the invariant: real squares, and for
/// the two execution branches that relocate pieces onto squares they did not
/// inspect (castling, and the double step that opens an en-passant window)
/// the facts that legal move generation guarantees.
pub open spec fn exec_ok(v: GameView, m: Move) -> bool {
    &&& m.piece.square.valid()
    &&& m.target.valid()
    &&& (gates_pass(v, m) ==> {
        &&& double_push_ok(v, m)
        &&& (castle_fires(v, m) ==> legit_castle(v, m))
    })
}


// ---------------------------------------------------------------------------
// Legal move generation (the filtered list)
// ---------------------------------------------------------------------------

/// Whether executing a move would leave the mover's own color in check.
pub open spec fn check_after(v: GameView, m: Move) -> bool {
    is_check_color_spec(spec_execute(v, m), m.piece.color)
}

/// Whether a piece together with a start and target square denotes a
/// castling move: a king crossing more than one file.
pub open spec fn is_castling_move_spec(p: Piece, start: BoardSquare, target: BoardSquare) -> bool {
    p.piece_type == PieceType::King && (start.sx() - target.sx() > 1 || target.sx() - start.sx()
        > 1)
}

/// Whether every square the king transits while castling (its start and
/// target included) is free of enemy attack, judged by hypothetically moving
/// the king there.
pub open spec fn castle_path_safe(v: GameView, m: Move) -> bool {
    forall|j: int|
        0 <= j < spec_between(m.piece.square, m.target).len() ==> !check_after(
            v,
            Move { piece: m.piece, target: #[trigger] spec_between(m.piece.square, m.target)[j] },
        )
}

/// The legality filter: a candidate is kept when executing it does not leave
/// the mover's own color in check, and a castling candidate additionally
/// needs its whole king path safe.
pub open spec fn keep_move(v: GameView, m: Move) -> bool {
    !check_after(v, m) && (!is_castling_move_spec(m.piece, m.piece.square, m.target)
        || castle_path_safe(v, m))
}

/// The kept moves over a candidate target list, from index `i` on.
pub open spec fn pm_from(v: GameView, p: Piece, ts: Seq<BoardSquare>, i: int) -> Seq<Move>
    decreases ts.len() - i,
{
    if i < 0 || i >= ts.len() {
        Seq::<Move>::empty()
    } else {
        let m = Move { piece: p, target: ts[i] };
        let rest = pm_from(v, p, ts, i + 1);
        if keep_move(v, m) {
            seq![m] + rest
        } else {
            rest
        }
    }
}

/// All legal moves of a piece: its candidate targets, filtered.
pub open spec fn possible_moves_spec(v: GameView, p: Piece) -> Seq<Move> {
    pm_from(v, p, targets_spec(v, p), 0)
}

/// Every kept move names the piece it was generated for, passed the
/// legality filter, and aims at one of the candidate targets.
pub proof fn lemma_pm_member(v: GameView, p: Piece, ts: Seq<BoardSquare>, i: int)
    ensures
        forall|j: int|
            0 <= j < pm_from(v, p, ts, i).len() ==> (#[trigger] pm_from(v, p, ts, i)[j]).piece == p
                && keep_move(v, pm_from(v, p, ts, i)[j]) && exists|k: int|
                i <= k < ts.len() && #[trigger] trig_step(k) && ts[k] == pm_from(
                    v,
                    p,
                    ts,
                    i,
                )[j].target,
    decreases ts.len() - i,
{
    if 0 <= i < ts.len() {
        lemma_pm_member(v, p, ts, i + 1);
        let m = Move { piece: p, target: ts[i] };
        assert forall|j: int| 0 <= j < pm_from(v, p, ts, i).len() implies (#[trigger] pm_from(
            v,
            p,
            ts,
            i,
        )[j]).piece == p && keep_move(v, pm_from(v, p, ts, i)[j]) && exists|k: int|
            i <= k < ts.len() && #[trigger] trig_step(k) && ts[k] == pm_from(v, p, ts, i)[j].target by {
            if keep_move(v, m) && j == 0 {
                assert(pm_from(v, p, ts, i)[0] == m);
                assert(trig_step(i));
            } else {
                let off: int = if keep_move(v, m) {
                    1
                } else {
                    0
                };
                assert(pm_from(v, p, ts, i)[j] == pm_from(v, p, ts, i + 1)[j - off]);
                let k = choose|k: int|
                    i + 1 <= k < ts.len() && #[trigger] trig_step(k) && ts[k] == pm_from(
                        v,
                        p,
                        ts,
                        i + 1,
                    )[j - off].target;
                assert(trig_step(k));
            }
        }
    }
}

/// Everything `possible_moves` offers is a request `execute_move` accepts.
pub proof fn lemma_possible_moves_exec_ok(v: GameView, p: Piece)
    requires
        wf(v),
        occupant(v.pieces, p.square) == Some(p),
    ensures
        forall|j: int|
            0 <= j < possible_moves_spec(v, p).len() ==> exec_ok(
                v,
                #[trigger] possible_moves_spec(v, p)[j],
            ),
{
    lemma_pm_member(v, p, targets_spec(v, p), 0);
    lemma_candidates_exec_ok(v, p);
    assert forall|j: int| 0 <= j < possible_moves_spec(v, p).len() implies exec_ok(
        v,
        #[trigger] possible_moves_spec(v, p)[j],
    ) by {
        let m = possible_moves_spec(v, p)[j];
        let k = choose|k: int|
            0 <= k < targets_spec(v, p).len() && #[trigger] trig_step(k) && targets_spec(v, p)[k]
                == m.target;
        assert(exec_ok(v, Move { piece: p, target: targets_spec(v, p)[k] }));
    }
}

/// Every candidate target yields a move that `execute_move` accepts, and so
/// does every square on a castling candidate's king path.
pub proof fn lemma_candidates_exec_ok(v: GameView, p: Piece)
    requires
        wf(v),
        occupant(v.pieces, p.square) == Some(p),
    ensures
        p.square.valid(),
        forall|j: int|
            0 <= j < targets_spec(v, p).len() ==> (#[trigger] targets_spec(v, p)[j]).valid()
                && exec_ok(v, Move { piece: p, target: targets_spec(v, p)[j] }),
        forall|j: int, i: int|
            0 <= j < targets_spec(v, p).len() && is_castling_move_spec(
                p,
                p.square,
                targets_spec(v, p)[j],
            ) && 0 <= i < spec_between(p.square, #[trigger] targets_spec(v, p)[j]).len()
                ==> exec_ok(
                v,
                Move {
                    piece: p,
                    target: #[trigger] spec_between(p.square, targets_spec(v, p)[j])[i],
                },
            ),
{
    lemma_find_from(v.pieces, p.square.sx(), p.square.sy(), 0);
    assert(v.pieces.contains(p));
    let pi = choose|pi: int| 0 <= pi < v.pieces.len() && v.pieces[pi] == p;
    assert(p.square.valid());
    let ds = spec_piece_deltas(p);
    let wa = walk_all_from(v, p, ds, 0);
    let cs = castle_moves_spec(v, p);
    lemma_walk_all_member(v, p, ds, 0);
    lemma_piece_deltas_bounds(p);
    lemma_castle_member(v, p);
    lemma_square_coords(p.square);

    assert forall|j: int|
        0 <= j < targets_spec(v, p).len() implies (#[trigger] targets_spec(v, p)[j]).valid()
        && exec_ok(v, Move { piece: p, target: targets_spec(v, p)[j] }) by {
        let t = targets_spec(v, p)[j];
        let m = Move { piece: p, target: t };
        if j < wa.len() {
            assert(wa[j] == t);
            assert(in_some_walk(v, p, ds, 0, t));
            let k = choose|k: int|
                0 <= k < ds.len() && #[trigger] trig_step(k) && walk(v, p, ds[k], 1).contains(t);
            let pd = ds[k];
            lemma_walk_member(v, p, pd, 1);
            let wi = choose|wi: int| 0 <= wi < walk(v, p, pd, 1).len() && walk(v, p, pd, 1)[wi] == t;
            assert(walk_target_ok(v, p, pd, 1, t));
            let kk = choose|kk: int|
                1 <= kk <= pd.max_distance && #[trigger] trig_step(kk) && t == square_mk(
                    p.square.sx() + pd.delta.0 * kk,
                    p.square.sy() + pd.delta.1 * kk,
                ) && inside(p.square.sx() + pd.delta.0 * kk, p.square.sy() + pd.delta.1 * kk) && (
                occupant(v.pieces, t) is None || (pd.spec_may_capture() && occupant(
                    v.pieces,
                    t,
                ).unwrap().color != p.color)) && (forall|jj: int|
                    1 <= jj < kk && #[trigger] trig_step(jj) ==> piece_at_spec(
                        v.pieces,
                        p.square.sx() + pd.delta.0 * jj,
                        p.square.sy() + pd.delta.1 * jj,
                    ) is None && inside(
                        p.square.sx() + pd.delta.0 * jj,
                        p.square.sy() + pd.delta.1 * jj,
                    ));
            lemma_square_mk_coords(
                p.square.sx() + pd.delta.0 * kk,
                p.square.sy() + pd.delta.1 * kk,
            );
            assert(t.valid());
            if p.piece_type == PieceType::Pawn && (t.sy() - p.square.sy() == 2 || t.sy()
                - p.square.sy() == -2) {
                lemma_pawn_deltas_shape(p);
                assert(pd.delta.1 == 1 || pd.delta.1 == -1);
                assert(t.sy() == p.square.sy() + pd.delta.1 * kk);
                assert(pd.delta.1 * kk == 2 || pd.delta.1 * kk == -2);
                assert(kk == 2) by (nonlinear_arith)
                    requires
                        (pd.delta.1 == 1 || pd.delta.1 == -1),
                        (pd.delta.1 * kk == 2 || pd.delta.1 * kk == -2),
                        kk >= 1,
                ;
                assert(pd.max_distance >= 2);
                assert(pd.delta.0 == 0);
                assert(pd.delta.0 * kk == 0) by (nonlinear_arith)
                    requires
                        pd.delta.0 == 0,
                ;
                assert(t.sx() == p.square.sx());
                assert(trig_step(1));
                assert(piece_at_spec(v.pieces, p.square.sx() + pd.delta.0 * 1, p.square.sy()
                    + pd.delta.1 * 1) is None);
                assert(p.square.sx() + pd.delta.0 * 1 == p.square.sx());
                assert(p.square.sy() + pd.delta.1 * 1 == p.square.sy() + pd.delta.1);
                assert(sgn(t.sy() - p.square.sy()) == pd.delta.1 as int);
                assert(piece_at_spec(
                    v.pieces,
                    m.target.sx(),
                    m.piece.square.sy() + sgn(m.target.sy() - m.piece.square.sy()),
                ) is None);
                assert(double_push_ok(v, m));
            }
            if p.piece_type == PieceType::King {
                lemma_king_deltas_shape(p);
                assert(pd.max_distance == 1);
                assert(kk == 1);
                assert(-1 <= pd.delta.0 <= 1);
                assert(-2 < m.piece.square.sx() - m.target.sx() < 2);
                assert(castling_rook_spec(v, m) is None);
            }
            if p.piece_type != PieceType::King {
                assert(castling_rook_spec(v, m) is None);
            }
            assert(exec_ok(v, m));
        } else {
            let cj = j - wa.len();
            assert(cs.map_values(|mm: Move| mm.target)[cj] == t);
            assert(cs[cj].target == t);
            assert(cs[cj].piece == p && legit_castle(v, cs[cj]));
            assert(cs[cj] == m);
            assert(p.piece_type == PieceType::King);
            assert(exec_ok(v, m));
        }
    }

    assert forall|j: int, i: int|
        0 <= j < targets_spec(v, p).len() && is_castling_move_spec(
            p,
            p.square,
            targets_spec(v, p)[j],
        ) && 0 <= i < spec_between(p.square, #[trigger] targets_spec(v, p)[j]).len() implies exec_ok(
        v,
        Move { piece: p, target: #[trigger] spec_between(p.square, targets_spec(v, p)[j])[i] },
    ) by {
        let t = targets_spec(v, p)[j];
        assert(p.piece_type == PieceType::King);
        if j < wa.len() {
            assert(wa[j] == t);
            assert(in_some_walk(v, p, ds, 0, t));
            let k = choose|k: int|
                0 <= k < ds.len() && #[trigger] trig_step(k) && walk(v, p, ds[k], 1).contains(t);
            let pd = ds[k];
            lemma_walk_member(v, p, pd, 1);
            let wi = choose|wi: int| 0 <= wi < walk(v, p, pd, 1).len() && walk(v, p, pd, 1)[wi] == t;
            assert(walk_target_ok(v, p, pd, 1, t));
            let kk = choose|kk: int|
                1 <= kk <= pd.max_distance && #[trigger] trig_step(kk) && t == square_mk(
                    p.square.sx() + pd.delta.0 * kk,
                    p.square.sy() + pd.delta.1 * kk,
                ) && inside(p.square.sx() + pd.delta.0 * kk, p.square.sy() + pd.delta.1 * kk) && (
                occupant(v.pieces, t) is None || (pd.spec_may_capture() && occupant(
                    v.pieces,
                    t,
                ).unwrap().color != p.color)) && (forall|jj: int|
                    1 <= jj < kk && #[trigger] trig_step(jj) ==> piece_at_spec(
                        v.pieces,
                        p.square.sx() + pd.delta.0 * jj,
                        p.square.sy() + pd.delta.1 * jj,
                    ) is None && inside(
                        p.square.sx() + pd.delta.0 * jj,
                        p.square.sy() + pd.delta.1 * jj,
                    ));
            lemma_king_deltas_shape(p);
            lemma_square_mk_coords(
                p.square.sx() + pd.delta.0 * kk,
                p.square.sy() + pd.delta.1 * kk,
            );
            assert(!is_castling_move_spec(p, p.square, t));
            assert(false);
        } else {
            let cj = j - wa.len();
            assert(cs.map_values(|mm: Move| mm.target)[cj] == t);
            assert(cs[cj].target == t);
            assert(cs[cj].piece == p && legit_castle(v, cs[cj]) && p.square.sx() == 4
                && t.sy() == p.square.sy() && (t.sx() == 2 || t.sx() == 6));
            let s = spec_between(p.square, t)[i];
            let lo = if p.square.sx() < t.sx() {
                p.square.sx()
            } else {
                t.sx()
            };
            assert(s == square_mk(lo + i, p.square.sy()));
            lemma_square_mk_coords(lo + i, p.square.sy());
            let ms = Move { piece: p, target: s };
            if s.sx() == p.square.sx() {
                assert(s == p.square) by {
                    lemma_square_coords(p.square);
                }
                assert(!gates_pass(v, ms));
            } else if s.sx() == t.sx() {
                assert(s == t) by {
                    lemma_square_coords(t);
                }
                assert(ms == (Move { piece: p, target: t }));
                assert(legit_castle(v, ms) || castling_rook_spec(v, ms) is None) by {
                    assert(cs[cj] == ms);
                }
            } else {
                assert(s.sx() == 3 || s.sx() == 5);
                assert(castling_rook_spec(v, ms) is None);
            }
            assert(exec_ok(v, ms));
        }
    }
}

// ---------------------------------------------------------------------------
// Preservation helpers
// ---------------------------------------------------------------------------

/// Nothing stands at coordinates where no piece stands.
pub proof fn lemma_find_absent(pieces: Seq<Piece>, x: int, y: int)
    requires
        forall|j: int| 0 <= j < pieces.len() ==> !at_coord(#[trigger] pieces[j], x, y),
    ensures
        piece_at_spec(pieces, x, y) is None,
{
    lemma_find_from(pieces, x, y, 0);
    if piece_at_spec(pieces, x, y) is Some {
        let j = choose|j: int|
            0 <= j < pieces.len() && pieces[j] == piece_at_spec(pieces, x, y).unwrap() && at_coord(
                #[trigger] pieces[j],
                x,
                y,
            );
        assert(false);
    }
}

/// Relocating onto an unoccupied real square keeps the squares distinct.
pub proof fn lemma_move_distinct(pieces: Seq<Piece>, from: BoardSquare, to: BoardSquare)
    requires
        distinct_squares(pieces),
        pieces_ok(pieces),
        to.valid(),
        forall|i: int| 0 <= i < pieces.len() ==> (#[trigger] pieces[i]).square != to,
    ensures
        distinct_squares(move_pieces(pieces, from, to)),
{
    let r = move_pieces(pieces, from, to);
    assert forall|i: int, j: int|
        0 <= i < r.len() && 0 <= j < r.len() && i != j implies (#[trigger] r[i]).square != (
    #[trigger] r[j]).square by {
        assert(r[i] == moved_piece(pieces[i], from, to));
        assert(r[j] == moved_piece(pieces[j], from, to));
    }
}

/// A first pawn found on a farthest rank really stands in the roster.
pub proof fn lemma_promo_scan(pieces: Seq<Piece>, i: int)
    ensures
        match promo_scan_from(pieces, i) {
            Some(pp) => exists|j: int|
                i <= j < pieces.len() && #[trigger] pieces[j] == pp && pp.piece_type
                    == PieceType::Pawn && on_last_rank(pp.square),
            None => true,
        },
    decreases pieces.len() - i,
{
    if 0 <= i < pieces.len() {
        if pieces[i].piece_type == PieceType::Pawn && on_last_rank(pieces[i].square) {
            assert(pieces[i] == promo_scan_from(pieces, i).unwrap());
        } else {
            lemma_promo_scan(pieces, i + 1);
        }
    }
}

/// Trigger marker for a pair of roster indices.
pub open spec fn trig_two(i: int, j: int) -> bool {
    true
}

/// Trigger marker for simulation witnesses.
pub open spec fn trig_piece(q: Piece) -> bool {
    true
}

/// Two pieces that agree on everything but their square.
pub open spec fn sim_piece(q: Piece, q1: Piece) -> bool {
    q1.piece_type == q.piece_type && q1.color == q.color && q1.start_square == q.start_square
}

/// A history step preserves pedigree and history coherence whenever every
/// new piece descends from an old one and every relocated non-rook either
/// kept its square or moved from the square the new history entry records.
pub proof fn lemma_ped_hc_step(v: GameView, v1: GameView)
    requires
        wf(v),
        v1.moves.len() == v.moves.len() + 1,
        forall|i: int| 0 <= i < v.moves.len() ==> v1.moves[i] == #[trigger] v.moves[i],
        forall|i: int|
            0 <= i < v1.pieces.len() ==> exists|q: Piece|
                #[trigger] trig_piece(q) && v.pieces.contains(q) && sim_piece(
                    q,
                    #[trigger] v1.pieces[i],
                ) && (v1.pieces[i].square == q.square || v1.moves.last().start_square == q.square
                    || q.piece_type == PieceType::Rook),
    ensures
        pedigree_ok(v1),
        history_ok(v1),
{
    assert forall|q: Piece| has_moved_spec(v, q) implies has_moved_spec(v1, q) by {
        let i = choose|i: int|
            0 <= i < v.moves.len() && (#[trigger] v.moves[i]).start_square == q.start_square;
        assert(v1.moves[i].start_square == q.start_square);
    }
    assert forall|i: int| 0 <= i < v1.pieces.len() implies {
        let p = #[trigger] v1.pieces[i];
        std_type_at(p.start_square, p.color) is Some && (has_moved_spec(v1, p) || std_type_at(
            p.start_square,
            p.color,
        ) == Some(p.piece_type))
    } by {
        let p = v1.pieces[i];
        let q = choose|q: Piece|
            #[trigger] trig_piece(q) && v.pieces.contains(q) && sim_piece(q, p) && (p.square
                == q.square || v1.moves.last().start_square == q.square || q.piece_type
                == PieceType::Rook);
        let qi = choose|qi: int| 0 <= qi < v.pieces.len() && v.pieces[qi] == q;
        assert(std_type_at(q.start_square, q.color) is Some && (has_moved_spec(v, v.pieces[qi])
            || std_type_at(q.start_square, q.color) == Some(v.pieces[qi].piece_type)));
        if has_moved_spec(v, q) {
            assert(has_moved_spec(v1, q));
            assert(has_moved_spec(v1, p)) by {
                let mi = choose|mi: int|
                    0 <= mi < v1.moves.len() && (#[trigger] v1.moves[mi]).start_square
                        == q.start_square;
            }
        }
    }
    assert forall|i: int| 0 <= i < v1.pieces.len() implies {
        let p = #[trigger] v1.pieces[i];
        p.square != p.start_square && p.piece_type != PieceType::Rook ==> has_moved_spec(v1, p)
    } by {
        let p = v1.pieces[i];
        if p.square != p.start_square && p.piece_type != PieceType::Rook {
            let q = choose|q: Piece|
                #[trigger] trig_piece(q) && v.pieces.contains(q) && sim_piece(q, p) && (p.square
                    == q.square || v1.moves.last().start_square == q.square || q.piece_type
                    == PieceType::Rook);
            let qi = choose|qi: int| 0 <= qi < v.pieces.len() && v.pieces[qi] == q;
            if p.square == q.square {
                assert(q.square != q.start_square && q.piece_type != PieceType::Rook);
                assert(has_moved_spec(v, v.pieces[qi]));
                assert(has_moved_spec(v, q));
                assert(has_moved_spec(v1, p)) by {
                    let mi = choose|mi: int|
                        0 <= mi < v.moves.len() && (#[trigger] v.moves[mi]).start_square
                            == q.start_square;
                    assert(v1.moves[mi].start_square == p.start_square);
                }
            } else {
                assert(v1.moves.last().start_square == q.square);
                if q.square == q.start_square {
                    assert(v1.moves.last().start_square == p.start_square);
                    assert(has_moved_spec(v1, p)) by {
                        assert(v1.moves[v1.moves.len() - 1].start_square == p.start_square);
                    }
                } else {
                    assert(has_moved_spec(v, v.pieces[qi]));
                    assert(has_moved_spec(v, q));
                    assert(has_moved_spec(v1, p)) by {
                        let mi = choose|mi: int|
                            0 <= mi < v.moves.len() && (#[trigger] v.moves[mi]).start_square
                                == q.start_square;
                        assert(v1.moves[mi].start_square == p.start_square);
                    }
                }
            }
        }
    }
}

/// A distinct, on-board roster has a coherent promotion scan.
pub proof fn lemma_promo_ok_of(pieces: Seq<Piece>)
    requires
        pieces_ok(pieces),
        distinct_squares(pieces),
    ensures
        match promo_scan(pieces) {
            None => true,
            Some(pp) => occupant(pieces, pp.square) == Some(pp) && pp.piece_type == PieceType::Pawn
                && on_last_rank(pp.square) && pp.square.valid(),
        },
{
    lemma_promo_scan(pieces, 0);
    match promo_scan(pieces) {
        None => {},
        Some(pp) => {
            let j = choose|j: int|
                0 <= j < pieces.len() && #[trigger] pieces[j] == pp && pp.piece_type
                    == PieceType::Pawn && on_last_rank(pp.square);
            lemma_piece_at(pieces, pp.square.sx(), pp.square.sy());
            assert(at_coord(pieces[j], pp.square.sx(), pp.square.sy()));
        },
    }
}

// ---------------------------------------------------------------------------
// Legality of generated candidates
// ---------------------------------------------------------------------------

/// An unmoved king still stands on its file-e start square.
pub proof fn lemma_king_at_start(v: GameView, p: Piece)
    requires
        wf(v),
        v.pieces.contains(p),
        p.piece_type == PieceType::King,
        !has_moved_spec(v, p),
        p.square == p.start_square,
    ensures
        p.square.valid(),
        p.square.sx() == 4,
        p.square.sy() == std_y(p.color),
{
    let idx = choose|idx: int| 0 <= idx < v.pieces.len() && v.pieces[idx] == p;
    assert(v.pieces[idx].square.valid() && v.pieces[idx].start_square.valid());
    assert(std_type_at(p.start_square, p.color) is Some && (has_moved_spec(v, v.pieces[idx])
        || std_type_at(p.start_square, p.color) == Some(v.pieces[idx].piece_type)));
    assert(std_type_at(p.start_square, p.color) == Some(PieceType::King));
    lemma_square_coords(p.start_square);
}

/// An unmoved rook still stands in one of its color's corners.
pub proof fn lemma_rook_at_corner(v: GameView, r: Piece)
    requires
        wf(v),
        v.pieces.contains(r),
        r.piece_type == PieceType::Rook,
        !has_moved_spec(v, r),
        r.square == r.start_square,
    ensures
        r.square.valid(),
        r.square.sx() == 0 || r.square.sx() == 7,
        r.square.sy() == std_y(r.color),
{
    let idx = choose|idx: int| 0 <= idx < v.pieces.len() && v.pieces[idx] == r;
    assert(v.pieces[idx].square.valid() && v.pieces[idx].start_square.valid());
    assert(std_type_at(r.start_square, r.color) is Some && (has_moved_spec(v, v.pieces[idx])
        || std_type_at(r.start_square, r.color) == Some(v.pieces[idx].piece_type)));
    assert(std_type_at(r.start_square, r.color) == Some(PieceType::Rook));
    lemma_square_coords(r.start_square);
}

/// Every castling move a king is offered is a legitimate castling request:
/// the king stands unmoved on file e, the corner occupant on the target's
/// rank is the eligible never-moved rook, and the target is two files away.
pub proof fn lemma_castle_member(v: GameView, p: Piece)
    requires
        wf(v),
        occupant(v.pieces, p.square) == Some(p),
    ensures
        forall|j: int|
            0 <= j < castle_moves_spec(v, p).len() ==> {
                let m = #[trigger] castle_moves_spec(v, p)[j];
                m.piece == p && m.target.valid() && legit_castle(v, m)
                    && m.target.sy() == p.square.sy() && p.square.sx() == 4 && (m.target.sx() == 2
                    || m.target.sx() == 6)
            },
{
    if castle_moves_spec(v, p).len() > 0 {
        assert(p.piece_type == PieceType::King && !has_moved_spec(v, p) && p.square
            == p.start_square);
        lemma_find_from(v.pieces, p.square.sx(), p.square.sy(), 0);
        assert(v.pieces.contains(p));
        lemma_king_at_start(v, p);
        let kx = p.square.sx();
        let ky = p.square.sy();
        assert forall|j: int| 0 <= j < castle_moves_spec(v, p).len() implies {
            let m = #[trigger] castle_moves_spec(v, p)[j];
            m.piece == p && m.target.valid() && legit_castle(v, m) && m.target.sy()
                == p.square.sy() && p.square.sx() == 4 && (m.target.sx() == 2 || m.target.sx()
                == 6)
        } by {
            let m = castle_moves_spec(v, p)[j];
            let east = castle_dir_move(v, p, Direction::E);
            let west = castle_dir_move(v, p, Direction::W);
            let dir = if j < east.len() {
                Direction::E
            } else {
                Direction::W
            };
            assert(m == castle_dir_move(v, p, dir)[if j < east.len() {
                j
            } else {
                j - east.len()
            }]);
            assert(castle_dir_move(v, p, dir).len() > 0);
            let r = next_piece_spec(v, p.square, dir).unwrap();
            assert(r.piece_type == PieceType::Rook && !has_moved_spec(v, r) && r.square
                == r.start_square);
            let d = dir.spec_delta();
            lemma_next_piece_from(v.pieces, kx + d.0, ky + d.1, d.0 as int, d.1 as int, true);
            let k = choose|k: int|
                0 <= k && #[trigger] trig_step(k) && piece_at_spec(
                    v.pieces,
                    (kx + d.0) + k * d.0,
                    (ky + d.1) + k * d.1,
                ) == Some(r) && (true || k == 0) && (forall|jj: int|
                    0 <= jj < k && #[trigger] trig_step(jj) ==> piece_at_spec(
                        v.pieces,
                        (kx + d.0) + jj * d.0,
                        (ky + d.1) + jj * d.1,
                    ) is None && inside((kx + d.0) + jj * d.0, (ky + d.1) + jj * d.1));
            lemma_find_from(v.pieces, (kx + d.0) + k * d.0, (ky + d.1) + k * d.1, 0);
            assert(at_coord(r, (kx + d.0) + k * d.0, (ky + d.1) + k * d.1));
            assert(v.pieces.contains(r));
            lemma_rook_at_corner(v, r);
            assert(r.square.sy() == ky);
            if dir == Direction::E {
                assert(r.square.sx() == kx + 1 + k * 1);
                assert(r.square.sx() >= 5);
                assert(r.square.sx() == 7);
            } else {
                assert(r.square.sx() == kx - 1 + k * (-1));
                assert(r.square.sx() <= 3);
                assert(r.square.sx() == 0);
            }
            let factor: int = if r.square.sx() > kx {
                1
            } else {
                -1
            };
            let t = spec_square_at(kx + 2 * factor, ky).unwrap();
            assert(m == (Move { piece: p, target: t }));
            lemma_square_mk_coords(kx + 2 * factor, ky);
            assert(m.target.valid() && m.target.sy() == ky && (m.target.sx() == 2 || m.target.sx()
                == 6));
            assert(castling_rook_spec(v, m) == Some(r)) by {
                if m.target.sx() == 6 {
                    assert(m.target.column == 'g');
                    lemma_piece_at(v.pieces, 7, m.target.sy());
                    let ri = choose|ri: int| 0 <= ri < v.pieces.len() && v.pieces[ri] == r;
                    assert(at_coord(v.pieces[ri], 7, m.target.sy()));
                } else {
                    assert(m.target.column == 'c');
                    lemma_piece_at(v.pieces, 0, m.target.sy());
                    let ri = choose|ri: int| 0 <= ri < v.pieces.len() && v.pieces[ri] == r;
                    assert(at_coord(v.pieces[ri], 0, m.target.sy()));
                }
            }
            assert(legit_castle(v, m));
        }
    }
}

// ---------------------------------------------------------------------------
// Preservation of the invariant
// ---------------------------------------------------------------------------

/// Executing an accepted move preserves the reachable-state invariant.
#[verifier::rlimit(100)]
pub proof fn lemma_execute_preserves_wf(v: GameView, m: Move)
    requires
        wf(v),
        exec_ok(v, m),
    ensures
        wf(spec_execute(v, m)),
{
    if gates_pass(v, m) {
        let p1 = apply_move(v, m).0;
        let v1 = spec_execute(v, m);
        let em = ExecutedMove {
            piece: m.piece,
            start_square: m.piece.square,
            target_square: m.target,
            is_capture: apply_move(v, m).1,
            is_chess: is_check_spec(GameView { pieces: p1, ..v }),
        };
        assert(v1.pieces == p1);
        assert(v1.moves == v.moves.push(em));
        assert(v1.moves.last() == em);
        assert(entries_ok(v1.moves)) by {
            assert(forall|i: int|
                0 <= i < v.moves.len() ==> #[trigger] v1.moves[i] == v.moves[i]);
            assert(v1.moves[v1.moves.len() - 1] == em);
        }
        assert((v.moves.len() + 1) % 2 == (if v.moves.len() % 2 == 0 { 1int } else { 0int }));
        assert(next_color_spec(v1) == next_color_spec(v).spec_opponent());
        lemma_square_coords(m.piece.square);
        lemma_square_coords(m.target);
        if castle_fires(v, m) {
            // -- castling: the atomic two-piece relocation
            assert(legit_castle(v, m));
            let r = castling_rook_spec(v, m).unwrap();
            let ksq = m.piece.square;
            let kx = ksq.sx();
            let ky = ksq.sy();
            let kingside = kx < r.square.sx();
            let kt = square_mk(
                kx + if kingside {
                    2int
                } else {
                    -2int
                },
                ky,
            );
            let rt = square_mk(
                r.square.sx() + if kingside {
                    -2int
                } else {
                    3int
                },
                r.square.sy(),
            );
            assert(p1 == move_pieces(move_pieces(v.pieces, ksq, kt), r.square, rt));
            assert(kt == m.target) by {
                lemma_square_mk_coords(kt.sx(), ky);
            }
            // the king's target is empty (otherwise a capture would have fired)
            assert(forall|i: int|
                0 <= i < v.pieces.len() ==> !at_coord(
                    #[trigger] v.pieces[i],
                    m.target.sx(),
                    m.target.sy(),
                )) by {
                lemma_find_from(v.pieces, m.target.sx(), m.target.sy(), 0);
            }
            assert forall|i: int| 0 <= i < v.pieces.len() implies (#[trigger] v.pieces[i]).square
                != kt by {
                if v.pieces[i].square == kt {
                    lemma_square_coords(v.pieces[i].square);
                }
            }
            lemma_move_distinct(v.pieces, ksq, kt);
            lemma_pieces_ok_move(v.pieces, ksq, kt);
            let ps1 = move_pieces(v.pieces, ksq, kt);
            // the rook's target lies strictly between king and rook and is empty
            let d = if kingside {
                Direction::E
            } else {
                Direction::W
            }.spec_delta();
            assert(next_piece_spec(
                v,
                ksq,
                if kingside {
                    Direction::E
                } else {
                    Direction::W
                },
            ) == Some(r));
            lemma_next_piece_from(v.pieces, kx + d.0, ky + d.1, d.0 as int, d.1 as int, true);
            let k = choose|k: int|
                0 <= k && #[trigger] trig_step(k) && piece_at_spec(
                    v.pieces,
                    (kx + d.0) + k * d.0,
                    (ky + d.1) + k * d.1,
                ) == Some(r) && (true || k == 0) && (forall|jj: int|
                    0 <= jj < k && #[trigger] trig_step(jj) ==> piece_at_spec(
                        v.pieces,
                        (kx + d.0) + jj * d.0,
                        (ky + d.1) + jj * d.1,
                    ) is None && inside((kx + d.0) + jj * d.0, (ky + d.1) + jj * d.1));
            lemma_find_from(v.pieces, (kx + d.0) + k * d.0, (ky + d.1) + k * d.1, 0);
            assert(at_coord(r, (kx + d.0) + k * d.0, (ky + d.1) + k * d.1));
            if kingside {
                assert(r.square.sx() == 7);
                assert(5 + k == 7);
                assert(trig_step(0));
                assert(piece_at_spec(v.pieces, 5, ky) is None);
                assert(rt == square_mk(5, ky));
            } else {
                assert(r.square.sx() == 0);
                assert(3 - k == 0);
                assert(trig_step(0));
                assert(piece_at_spec(v.pieces, 3, ky) is None);
                assert(rt == square_mk(3, ky));
            }
            lemma_square_mk_coords(rt.sx(), ky);
            assert(r.square.sy() == ky);
            assert forall|i: int| 0 <= i < ps1.len() implies (#[trigger] ps1[i]).square != rt by {
                assert(ps1[i] == moved_piece(v.pieces[i], ksq, kt));
                if v.pieces[i].square == ksq {
                    assert(ps1[i].square == kt);
                    assert(kt.sx() != rt.sx());
                } else {
                    if ps1[i].square == rt {
                        lemma_square_coords(v.pieces[i].square);
                        assert(at_coord(v.pieces[i], rt.sx(), rt.sy()));
                        lemma_find_from(v.pieces, rt.sx(), rt.sy(), 0);
                        assert(false);
                    }
                }
            }
            lemma_move_distinct(ps1, r.square, rt);
            lemma_pieces_ok_move(ps1, r.square, rt);
            // the corner occupant is the rook itself
            lemma_find_from(v.pieces, r.square.sx(), r.square.sy(), 0);
            let ri = choose|ri: int|
                0 <= ri < v.pieces.len() && v.pieces[ri] == r && at_coord(
                    #[trigger] v.pieces[ri],
                    r.square.sx(),
                    r.square.sy(),
                );
            // pedigree and history coherence via the simulation premise
            assert forall|i: int| 0 <= i < v1.pieces.len() implies exists|q: Piece|
                #[trigger] trig_piece(q) && v.pieces.contains(q) && sim_piece(
                    q,
                    #[trigger] v1.pieces[i],
                ) && (v1.pieces[i].square == q.square || v1.moves.last().start_square == q.square
                    || q.piece_type == PieceType::Rook) by {
                let orig = v.pieces[i];
                assert(v1.pieces[i] == moved_piece(moved_piece(orig, ksq, kt), r.square, rt));
                assert(trig_piece(orig));
                assert(v.pieces.contains(orig));
                if orig.square == ksq {
                } else if orig.square == r.square {
                    assert(orig == r) by {
                        if ri != i {
                            assert(v.pieces[ri].square != v.pieces[i].square);
                        }
                    }
                } else {
                }
            }
            lemma_ped_hc_step(v, v1);
            // no en-passant window opens on a king move
            assert(em.piece.piece_type == PieceType::King);
            assert(ep_target_spec(v1) is None);
            lemma_promo_ok_of(p1);
            assert(wf(v1));
        } else {
            // -- the linear branches: en passant, capture, plain relocation
            let ghost removed: Option<BoardSquare> = if ep_fires(v, m) {
                Some(v.moves.last().target_square)
            } else if occupant(v.pieces, m.target) is Some {
                Some(m.target)
            } else {
                None
            };
            let ps0 = match removed {
                Some(rs) => remove_at(v.pieces, rs),
                None => v.pieces,
            };
            assert(p1 == move_pieces(ps0, m.piece.square, m.target));
            match removed {
                Some(rs) => {
                    lemma_remove_at(v.pieces, rs);
                    lemma_pieces_ok_remove(v.pieces, rs);
                },
                None => {},
            }
            assert(distinct_squares(ps0));
            assert(pieces_ok(ps0));
            // every remaining piece already stood in the old roster
            assert forall|i: int| 0 <= i < ps0.len() implies v.pieces.contains(
                #[trigger] ps0[i],
            ) by {
                match removed {
                    Some(rs) => {
                        assert(ps0.contains(ps0[i]));
                    },
                    None => {},
                }
            }
            // nothing in ps0 stands on the move's target square
            assert forall|i: int| 0 <= i < ps0.len() implies (#[trigger] ps0[i]).square
                != m.target by {
                assert(v.pieces.contains(ps0[i]));
                if ep_fires(v, m) {
                    assert(occupant(v.pieces, m.target) is None);
                    if ps0[i].square == m.target {
                        lemma_square_coords(ps0[i].square);
                        assert(at_coord(ps0[i], m.target.sx(), m.target.sy()));
                        let qi = choose|qi: int| 0 <= qi < v.pieces.len() && v.pieces[qi] == ps0[i];
                        lemma_find_from(v.pieces, m.target.sx(), m.target.sy(), 0);
                        assert(false);
                    }
                } else if occupant(v.pieces, m.target) is Some {
                    assert(ps0.contains(ps0[i]));
                } else {
                    if ps0[i].square == m.target {
                        lemma_square_coords(ps0[i].square);
                        assert(at_coord(ps0[i], m.target.sx(), m.target.sy()));
                        let qi = choose|qi: int| 0 <= qi < v.pieces.len() && v.pieces[qi] == ps0[i];
                        lemma_find_from(v.pieces, m.target.sx(), m.target.sy(), 0);
                        assert(false);
                    }
                }
            }
            lemma_move_distinct(ps0, m.piece.square, m.target);
            lemma_pieces_ok_move(ps0, m.piece.square, m.target);
            // the simulation premise
            assert forall|i: int| 0 <= i < v1.pieces.len() implies exists|q: Piece|
                #[trigger] trig_piece(q) && v.pieces.contains(q) && sim_piece(
                    q,
                    #[trigger] v1.pieces[i],
                ) && (v1.pieces[i].square == q.square || v1.moves.last().start_square == q.square
                    || q.piece_type == PieceType::Rook) by {
                let q = ps0[i];
                assert(v1.pieces[i] == moved_piece(q, m.piece.square, m.target));
                assert(trig_piece(q));
                assert(v.pieces.contains(q));
            }
            lemma_ped_hc_step(v, v1);
            lemma_promo_ok_of(p1);
            // the en-passant window of the new state
            assert(ep_ok(v1)) by {
                if ep_target_spec(v1) is Some {
                    assert(em.piece.piece_type == PieceType::Pawn);
                    let dd = move_delta(em);
                    assert(dd.1 == 2 || dd.1 == -2);
                    assert(m.piece.piece_type == PieceType::Pawn);
                    assert(m.target.sy() - m.piece.square.sy() == 2 || m.target.sy()
                        - m.piece.square.sy() == -2);
                    assert(double_push_ok(v, m));
                    assert(occupant(v.pieces, m.piece.square) == Some(m.piece));
                    let epx = m.target.sx();
                    let epy = m.piece.square.sy() + sgn(m.target.sy() - m.piece.square.sy());
                    assert(ep_target_spec(v1) == spec_square_at(epx, epy));
                    assert(inside(epx, epy));
                    assert(piece_at_spec(v.pieces, epx, epy) is None);
                    lemma_find_from(v.pieces, epx, epy, 0);
                    // the square behind the pawn is still empty
                    assert forall|j: int| 0 <= j < p1.len() implies !at_coord(
                        #[trigger] p1[j],
                        epx,
                        epy,
                    ) by {
                        assert(p1[j] == moved_piece(ps0[j], m.piece.square, m.target));
                        if ps0[j].square == m.piece.square {
                            assert(p1[j].square == m.target);
                            assert(m.target.sy() != epy);
                            lemma_square_coords(m.target);
                        } else {
                            assert(v.pieces.contains(ps0[j]));
                            let qi = choose|qi: int|
                                0 <= qi < v.pieces.len() && v.pieces[qi] == ps0[j];
                        }
                    }
                    lemma_find_absent(p1, epx, epy);
                    lemma_square_mk_coords(epx, epy);
                    assert(occupant(p1, ep_target_spec(v1).unwrap()) is None);
                    // the moved pawn stands on the recorded target square
                    lemma_find_from(v.pieces, m.piece.square.sx(), m.piece.square.sy(), 0);
                    let mi = choose|mi: int|
                        0 <= mi < v.pieces.len() && v.pieces[mi] == m.piece && at_coord(
                            #[trigger] v.pieces[mi],
                            m.piece.square.sx(),
                            m.piece.square.sy(),
                        );
                    assert(ps0.contains(m.piece)) by {
                        assert(v.pieces.contains(m.piece));
                        match removed {
                            Some(rs) => {
                                if rs == m.piece.square {
                                    if ep_fires(v, m) {
                                        assert(ep_target_spec(v) is Some);
                                        assert(rs == v.moves.last().target_square);
                                        assert(occupant(v.pieces, rs) == Some(m.piece));
                                        assert(m.piece.color == v.moves.last().piece.color);
                                        assert(v.moves.last().piece.color == next_color_spec(
                                            v,
                                        ).spec_opponent());
                                        assert(m.piece.color == next_color_spec(v));
                                        assert(false);
                                    } else {
                                        assert(rs == m.target);
                                        assert(false);
                                    }
                                }
                                assert(m.piece.square != rs);
                                assert(remove_at(v.pieces, rs).contains(m.piece));
                            },
                            None => {},
                        }
                    }
                    let si = choose|si: int| 0 <= si < ps0.len() && ps0[si] == m.piece;
                    assert(p1[si] == moved_piece(m.piece, m.piece.square, m.target));
                    assert(p1[si].square == m.target);
                    assert(at_coord(p1[si], m.target.sx(), m.target.sy()));
                    lemma_piece_at(p1, m.target.sx(), m.target.sy());
                    assert(occupant(p1, em.target_square) == Some(p1[si]));
                    assert(p1[si].color == m.piece.color);
                    assert(em.piece.color == next_color_spec(v1).spec_opponent());
                }
            }
            assert(wf(v1));
        }
    }
}

/// Resolving a pending promotion preserves the reachable-state invariant.
pub proof fn lemma_exchange_preserves_wf(v: GameView, new_type: PieceType)
    requires
        wf(v),
    ensures
        wf(spec_exchange(v, new_type)),
{
    match v.promo {
        None => {},
        Some(pp) => {
            let p1 = retype_at(v.pieces, pp.square, new_type);
            let v1 = spec_exchange(v, new_type);
            assert(v1.pieces == p1 && v1.moves == v.moves && v1.promo is None);
            lemma_pieces_ok_retype(v.pieces, pp.square, new_type);
            assert(distinct_squares(p1)) by {
                assert forall|i: int, j: int|
                    0 <= i < p1.len() && 0 <= j < p1.len() && i != j implies (
                #[trigger] p1[i]).square != (#[trigger] p1[j]).square by {
                    assert(p1[i] == retyped_piece(v.pieces[i], pp.square, new_type));
                    assert(p1[j] == retyped_piece(v.pieces[j], pp.square, new_type));
                }
            }
            // the promoted piece has moved: its pawn pedigree puts its start
            // two ranks short of the farthest rank
            assert(occupant(v.pieces, pp.square) == Some(pp));
            lemma_find_from(v.pieces, pp.square.sx(), pp.square.sy(), 0);
            let pi = choose|pi: int|
                0 <= pi < v.pieces.len() && v.pieces[pi] == pp && at_coord(
                    #[trigger] v.pieces[pi],
                    pp.square.sx(),
                    pp.square.sy(),
                );
            assert(has_moved_spec(v, pp)) by {
                assert(std_type_at(pp.start_square, pp.color) is Some && (has_moved_spec(
                    v,
                    v.pieces[pi],
                ) || std_type_at(pp.start_square, pp.color) == Some(v.pieces[pi].piece_type)));
                if !has_moved_spec(v, pp) {
                    assert(std_type_at(pp.start_square, pp.color) == Some(PieceType::Pawn));
                    assert(pp.start_square.sy() == std_pawn_y(pp.color));
                    lemma_square_coords(pp.square);
                    lemma_square_coords(pp.start_square);
                    assert(pp.square.sy() == 0 || pp.square.sy() == 7);
                    assert(pp.square != pp.start_square);
                    assert(has_moved_spec(v, v.pieces[pi]));
                }
            }
            assert(pedigree_ok(v1)) by {
                assert forall|i: int| 0 <= i < p1.len() implies {
                    let p = #[trigger] p1[i];
                    std_type_at(p.start_square, p.color) is Some && (has_moved_spec(v1, p)
                        || std_type_at(p.start_square, p.color) == Some(p.piece_type))
                } by {
                    assert(p1[i] == retyped_piece(v.pieces[i], pp.square, new_type));
                    assert(std_type_at(v.pieces[i].start_square, v.pieces[i].color) is Some && (
                    has_moved_spec(v, v.pieces[i]) || std_type_at(
                        v.pieces[i].start_square,
                        v.pieces[i].color,
                    ) == Some(v.pieces[i].piece_type)));
                    if v.pieces[i].square == pp.square {
                        assert(v.pieces[i] == pp) by {
                            if pi != i {
                                assert(v.pieces[pi].square != v.pieces[i].square);
                            }
                        }
                        assert(has_moved_spec(v1, p1[i]));
                    }
                }
            }
            assert(history_ok(v1)) by {
                assert forall|i: int| 0 <= i < p1.len() implies {
                    let p = #[trigger] p1[i];
                    p.square != p.start_square && p.piece_type != PieceType::Rook
                        ==> has_moved_spec(v1, p)
                } by {
                    assert(p1[i] == retyped_piece(v.pieces[i], pp.square, new_type));
                    if v.pieces[i].square == pp.square {
                        assert(v.pieces[i] == pp) by {
                            if pi != i {
                                assert(v.pieces[pi].square != v.pieces[i].square);
                            }
                        }
                        assert(has_moved_spec(v1, p1[i]));
                    } else {
                        assert(p1[i] == v.pieces[i]);
                        assert(v.pieces[i].square != v.pieces[i].start_square
                            && v.pieces[i].piece_type != PieceType::Rook ==> has_moved_spec(
                            v,
                            v.pieces[i],
                        ));
                    }
                }
            }
            assert(entries_ok(v1.moves));
            // retyping moves nothing, so occupancy facts carry over
            assert(ep_target_spec(v1) == ep_target_spec(v));
            assert(ep_ok(v1)) by {
                if ep_target_spec(v1) is Some {
                    let ept = ep_target_spec(v).unwrap();
                    assert forall|j: int| 0 <= j < p1.len() implies !at_coord(
                        #[trigger] p1[j],
                        ept.sx(),
                        ept.sy(),
                    ) by {
                        assert(p1[j] == retyped_piece(v.pieces[j], pp.square, new_type));
                        lemma_find_from(v.pieces, ept.sx(), ept.sy(), 0);
                    }
                    lemma_find_absent(p1, ept.sx(), ept.sy());
                    let lt = v.moves.last().target_square;
                    let q = occupant(v.pieces, lt).unwrap();
                    lemma_find_from(v.pieces, lt.sx(), lt.sy(), 0);
                    let qi = choose|qi: int|
                        0 <= qi < v.pieces.len() && v.pieces[qi] == q && at_coord(
                            #[trigger] v.pieces[qi],
                            lt.sx(),
                            lt.sy(),
                        );
                    assert(at_coord(p1[qi], lt.sx(), lt.sy()));
                    lemma_piece_at(p1, lt.sx(), lt.sy());
                    assert(occupant(p1, lt) == Some(p1[qi]));
                    assert(p1[qi].color == q.color);
                    assert(next_color_spec(v1) == next_color_spec(v));
                }
            }
            lemma_promo_ok_of(p1);
            assert(wf(v1));
        },
    }
}

// ---------------------------------------------------------------------------
// The initial position
// ---------------------------------------------------------------------------

/// A piece standing on its start square.
pub open spec fn start_piece(t: PieceType, c: PieceColor, x: int, y: int) -> Piece {
    Piece { piece_type: t, color: c, square: square_mk(x, y), start_square: square_mk(x, y) }
}

/// The eight pawns of a color on their start rank.
pub open spec fn start_pawns(c: PieceColor) -> Seq<Piece> {
    Seq::new(8, |i: int| start_piece(PieceType::Pawn, c, i, std_pawn_y(c)))
}

/// The sixteen pieces of one color in creation order: king, queen, the two
/// knights, the two rooks, the two bishops, then the pawns left to right.
pub open spec fn start_side(c: PieceColor) -> Seq<Piece> {
    seq![
        start_piece(PieceType::King, c, 4, std_y(c)),
        start_piece(PieceType::Queen, c, 3, std_y(c)),
        start_piece(PieceType::Knight, c, 1, std_y(c)),
        start_piece(PieceType::Knight, c, 6, std_y(c)),
        start_piece(PieceType::Rook, c, 0, std_y(c)),
        start_piece(PieceType::Rook, c, 7, std_y(c)),
        start_piece(PieceType::Bishop, c, 2, std_y(c)),
        start_piece(PieceType::Bishop, c, 5, std_y(c)),
    ] + start_pawns(c)
}

/// The standard 32-piece roster, White's pieces first.
pub open spec fn start_roster() -> Seq<Piece> {
    start_side(PieceColor::White) + start_side(PieceColor::Black)
}

/// The file of the piece created at position `i` of a side's roster.
pub open spec fn start_x(i: int) -> int {
    if i == 0 {
        4
    } else if i == 1 {
        3
    } else if i == 2 {
        1
    } else if i == 3 {
        6
    } else if i == 4 {
        0
    } else if i == 5 {
        7
    } else if i == 6 {
        2
    } else if i == 7 {
        5
    } else {
        i - 8
    }
}

/// The rank index of the piece created at position `i` of a side's roster.
pub open spec fn start_y(i: int, c: PieceColor) -> int {
    if i < 8 {
        std_y(c)
    } else {
        std_pawn_y(c)
    }
}

/// Where each piece of a side starts, and that it starts with the type its
/// square assigns.
pub proof fn lemma_start_side(c: PieceColor)
    ensures
        start_side(c).len() == 16,
        forall|i: int|
            0 <= i < 16 ==> {
                let p = #[trigger] start_side(c)[i];
                p.color == c && p.start_square == p.square && p.square == square_mk(
                    start_x(i),
                    start_y(i, c),
                ) && p.square.valid() && p.square.sx() == start_x(i) && p.square.sy() == start_y(
                    i,
                    c,
                ) && std_type_at(p.start_square, p.color) == Some(p.piece_type)
            },
{
    assert forall|i: int| 0 <= i < 16 implies {
        let p = #[trigger] start_side(c)[i];
        p.color == c && p.start_square == p.square && p.square == square_mk(
            start_x(i),
            start_y(i, c),
        ) && p.square.valid() && p.square.sx() == start_x(i) && p.square.sy() == start_y(i, c)
            && std_type_at(p.start_square, p.color) == Some(p.piece_type)
    } by {
        lemma_square_mk_coords(start_x(i), start_y(i, c));
        if i >= 8 {
            assert(start_side(c)[i] == start_pawns(c)[i - 8]);
        }
    }
}

/// The freshly constructed game satisfies the reachable-state invariant.
pub proof fn lemma_initial_wf()
    ensures
        wf(initial_view()),
        start_roster().len() == 32,
{
    lemma_start_side(PieceColor::White);
    lemma_start_side(PieceColor::Black);
    let r = start_roster();
    assert forall|i: int| 0 <= i < 32 implies {
        let p = #[trigger] r[i];
        p.square.valid() && p.start_square.valid() && p.square == p.start_square && std_type_at(
            p.start_square,
            p.color,
        ) == Some(p.piece_type) && p.square.sx() == start_x(if i < 16 {
            i
        } else {
            i - 16
        }) && p.square.sy() == start_y(
            if i < 16 {
                i
            } else {
                i - 16
            },
            if i < 16 {
                PieceColor::White
            } else {
                PieceColor::Black
            },
        )
    } by {
        if i < 16 {
            assert(r[i] == start_side(PieceColor::White)[i]);
        } else {
            assert(r[i] == start_side(PieceColor::Black)[i - 16]);
        }
    }
    assert(distinct_squares(r)) by {
        assert forall|i: int, j: int|
            0 <= i < r.len() && 0 <= j < r.len() && i != j implies (#[trigger] r[i]).square != (
        #[trigger] r[j]).square by {
            let ii = if i < 16 {
                i
            } else {
                i - 16
            };
            let jj = if j < 16 {
                j
            } else {
                j - 16
            };
            if r[i].square == r[j].square {
                assert(r[i].square.sx() == r[j].square.sx() && r[i].square.sy()
                    == r[j].square.sy());
                assert(start_x(ii) == start_x(jj));
                assert(false);
            }
        }
    }
    assert(ep_target_spec(initial_view()) is None);
}

/// The state of a freshly constructed game.
pub open spec fn initial_view() -> GameView {
    GameView {
        pieces: start_roster(),
        moves: Seq::<ExecutedMove>::empty(),
        checks: Seq::<Move>::empty(),
        promo: None,
        initial: PieceColor::White,
    }
}


// ---------------------------------------------------------------------------
// Laws
// ---------------------------------------------------------------------------

/// In a well-formed state each square carries at most one piece: two roster
/// entries standing on the same coordinates are the same entry, and the
/// roster lookup returns exactly the piece standing there.
pub proof fn lemma_at_most_one_piece_per_square(v: GameView, x: int, y: int)
    requires
        wf(v),
    ensures
        forall|i: int, j: int|
            0 <= i < v.pieces.len() && 0 <= j < v.pieces.len() && at_coord(
                #[trigger] v.pieces[i],
                x,
                y,
            ) && at_coord(#[trigger] v.pieces[j], x, y) ==> i == j,
        forall|j: int|
            0 <= j < v.pieces.len() && at_coord(#[trigger] v.pieces[j], x, y) ==> piece_at_spec(
                v.pieces,
                x,
                y,
            ) == Some(v.pieces[j]),
{
    assert forall|i: int, j: int|
        0 <= i < v.pieces.len() && 0 <= j < v.pieces.len() && at_coord(#[trigger] v.pieces[i], x, y)
        && at_coord(#[trigger] v.pieces[j], x, y) implies i == j by {
        if i != j {
            lemma_square_coords(v.pieces[i].square);
            lemma_square_coords(v.pieces[j].square);
            assert(v.pieces[i].square != v.pieces[j].square);
            assert(false);
        }
    }
    lemma_piece_at(v.pieces, x, y);
}

/// No legal move leaves the mover's own color in check: everything
/// `possible_moves` returns passed the self-check filter.
pub proof fn lemma_no_self_check(v: GameView, p: Piece)
    ensures
        forall|j: int|
            0 <= j < possible_moves_spec(v, p).len() ==> {
                let m = #[trigger] possible_moves_spec(v, p)[j];
                m.piece == p && !is_check_color_spec(spec_execute(v, m), p.color)
            },
{
    lemma_pm_member(v, p, targets_spec(v, p), 0);
}

/// The piece-count law: an executed move appends exactly one history entry;
/// a non-capturing move preserves the roster size, a capture or en-passant
/// capture removes exactly one piece, and castling preserves the size while
/// relocating exactly two pieces.
pub proof fn lemma_piece_count(v: GameView, m: Move)
    requires
        wf(v),
        exec_ok(v, m),
        gates_pass(v, m),
    ensures
        spec_execute(v, m).moves.len() == v.moves.len() + 1,
        spec_execute(v, m).moves.last().is_capture ==> spec_execute(v, m).pieces.len()
            == v.pieces.len() - 1,
        !spec_execute(v, m).moves.last().is_capture ==> spec_execute(v, m).pieces.len()
            == v.pieces.len(),
        castle_fires(v, m) ==> exists|ki: int, ri: int|
            #[trigger] trig_two(ki, ri) && 0 <= ki < v.pieces.len() && 0 <= ri < v.pieces.len()
                && ki != ri && {
                let p1 = spec_execute(v, m).pieces;
                &&& p1[ki].square != v.pieces[ki].square
                &&& p1[ri].square != v.pieces[ri].square
                &&& sim_piece(v.pieces[ki], p1[ki])
                &&& sim_piece(v.pieces[ri], p1[ri])
                &&& forall|k: int|
                    0 <= k < v.pieces.len() && k != ki && k != ri ==> #[trigger] p1[k]
                        == v.pieces[k]
            },
{
    let p1 = spec_execute(v, m).pieces;
    lemma_square_coords(m.piece.square);
    lemma_square_coords(m.target);
    if ep_fires(v, m) {
        let rs = v.moves.last().target_square;
        lemma_find_from(v.pieces, rs.sx(), rs.sy(), 0);
        let q = occupant(v.pieces, rs).unwrap();
        let qi = choose|qi: int|
            0 <= qi < v.pieces.len() && v.pieces[qi] == q && at_coord(
                #[trigger] v.pieces[qi],
                rs.sx(),
                rs.sy(),
            );
        assert(v.pieces[qi].square == rs) by {
            lemma_square_coords(v.pieces[qi].square);
            assert(rs.valid());
        }
        lemma_remove_at(v.pieces, rs);
        assert(remove_at(v.pieces, rs).len() == v.pieces.len() - 1);
    } else if occupant(v.pieces, m.target) is Some {
        lemma_find_from(v.pieces, m.target.sx(), m.target.sy(), 0);
        let q = occupant(v.pieces, m.target).unwrap();
        let qi = choose|qi: int|
            0 <= qi < v.pieces.len() && v.pieces[qi] == q && at_coord(
                #[trigger] v.pieces[qi],
                m.target.sx(),
                m.target.sy(),
            );
        assert(v.pieces[qi].square == m.target) by {
            lemma_square_coords(v.pieces[qi].square);
        }
        lemma_remove_at(v.pieces, m.target);
        assert(remove_at(v.pieces, m.target).len() == v.pieces.len() - 1);
    } else if castling_rook_spec(v, m) is Some {
        assert(legit_castle(v, m));
        let r = castling_rook_spec(v, m).unwrap();
        let ksq = m.piece.square;
        let kingside = ksq.sx() < r.square.sx();
        let kt = square_mk(
            ksq.sx() + if kingside {
                2int
            } else {
                -2int
            },
            ksq.sy(),
        );
        let rt = square_mk(
            r.square.sx() + if kingside {
                -2int
            } else {
                3int
            },
            r.square.sy(),
        );
        assert(p1 == move_pieces(move_pieces(v.pieces, ksq, kt), r.square, rt));
        lemma_square_mk_coords(kt.sx(), ksq.sy());
        lemma_square_mk_coords(rt.sx(), r.square.sy());
        lemma_find_from(v.pieces, ksq.sx(), ksq.sy(), 0);
        let ki = choose|ki: int|
            0 <= ki < v.pieces.len() && v.pieces[ki] == m.piece && at_coord(
                #[trigger] v.pieces[ki],
                ksq.sx(),
                ksq.sy(),
            );
        lemma_find_from(v.pieces, r.square.sx(), r.square.sy(), 0);
        let ri = choose|ri: int|
            0 <= ri < v.pieces.len() && v.pieces[ri] == r && at_coord(
                #[trigger] v.pieces[ri],
                r.square.sx(),
                r.square.sy(),
            );
        assert(v.pieces[ki].square == ksq) by {
            lemma_square_coords(v.pieces[ki].square);
        }
        assert(v.pieces[ri].square == r.square) by {
            lemma_square_coords(v.pieces[ri].square);
        }
        assert(ki != ri) by {
            assert(ksq.sx() == 4);
        }
        assert forall|k: int|
            0 <= k < v.pieces.len() && k != ki && k != ri implies #[trigger] p1[k]
            == v.pieces[k] by {
            assert(v.pieces[k].square != v.pieces[ki].square);
            assert(v.pieces[k].square != v.pieces[ri].square);
            assert(p1[k] == moved_piece(moved_piece(v.pieces[k], ksq, kt), r.square, rt));
        }
        assert(p1[ki] == moved_piece(moved_piece(v.pieces[ki], ksq, kt), r.square, rt));
        assert(p1[ri] == moved_piece(moved_piece(v.pieces[ri], ksq, kt), r.square, rt));
        assert(kt != ksq && kt != r.square && rt != r.square);
        assert(p1[ki].square == kt && p1[ri].square == rt);
        assert(trig_two(ki, ri));
    } else {
    }
}

/// The standard initial position: 32 pieces, 16 per color, with the White
/// king on file e of rank 1 and the White queen on file d of rank 1.
pub proof fn lemma_initial_position()
    ensures
        start_roster().len() == 32,
        count_color(start_roster(), PieceColor::White) == 16,
        count_color(start_roster(), PieceColor::Black) == 16,
        occupant(start_roster(), square_mk(4, 7)) == Some(
            start_piece(PieceType::King, PieceColor::White, 4, 7),
        ),
        occupant(start_roster(), square_mk(3, 7)) == Some(
            start_piece(PieceType::Queen, PieceColor::White, 3, 7),
        ),
{
    lemma_start_side(PieceColor::White);
    lemma_start_side(PieceColor::Black);
    let r = start_roster();
    assert forall|j: int| 0 <= j < 32 implies ((#[trigger] r[j]).color == (if j < 16 {
        PieceColor::White
    } else {
        PieceColor::Black
    })) by {
        if j < 16 {
            assert(r[j] == start_side(PieceColor::White)[j]);
        } else {
            assert(r[j] == start_side(PieceColor::Black)[j - 16]);
        }
    }
    lemma_count_color_range(r, PieceColor::White, 0, 0, 16);
    lemma_count_color_range(r, PieceColor::Black, 0, 16, 32);
    lemma_square_mk_coords(4, 7);
    lemma_square_mk_coords(3, 7);
    assert(r[0] == start_side(PieceColor::White)[0]);
    assert(r[1] == start_side(PieceColor::White)[1]);
    assert(r[0] == start_piece(PieceType::King, PieceColor::White, 4, 7));
    assert(r[1] == start_piece(PieceType::Queen, PieceColor::White, 3, 7));
    assert(at_coord(r[0], 4, 7));
    assert(!at_coord(r[0], 3, 7));
    assert(at_coord(r[1], 3, 7));
    assert(find_piece_from(r, 3, 7, 0) == find_piece_from(r, 3, 7, 1));
    assert(find_piece_from(r, 3, 7, 1) == Some(r[1]));
}

/// The number of pieces of a color, counting from index `i`.
pub open spec fn count_color_from(pieces: Seq<Piece>, c: PieceColor, i: int) -> int
    decreases pieces.len() - i,
{
    if i < 0 || i >= pieces.len() {
        0
    } else {
        (if pieces[i].color == c {
            1int
        } else {
            0int
        }) + count_color_from(pieces, c, i + 1)
    }
}

/// The number of pieces of a color in a roster.
pub open spec fn count_color(pieces: Seq<Piece>, c: PieceColor) -> int {
    count_color_from(pieces, c, 0)
}

/// Counting over a roster whose members of color `c` form exactly the index
/// range `lo..hi`.
proof fn lemma_count_color_range(pieces: Seq<Piece>, c: PieceColor, i: int, lo: int, hi: int)
    requires
        0 <= i <= pieces.len(),
        lo <= hi <= pieces.len(),
        forall|j: int|
            i <= j < pieces.len() ==> ((#[trigger] pieces[j]).color == c <==> (lo <= j < hi)),
    ensures
        count_color_from(pieces, c, i) == {
            let lo2 = if lo > i {
                lo
            } else {
                i
            };
            if hi > lo2 {
                hi - lo2
            } else {
                0
            }
        },
    decreases pieces.len() - i,
{
    if i < pieces.len() {
        lemma_count_color_range(pieces, c, i + 1, lo, hi);
    }
}


/// Whether the given color has any legal move at all.
pub open spec fn can_move_spec(v: GameView, c: PieceColor) -> bool {
    exists|i: int|
        0 <= i < v.pieces.len() && (#[trigger] v.pieces[i]).color == c && possible_moves_spec(
            v,
            v.pieces[i],
        ).len() > 0
}

/// Checkmate: the side to move is in check and has no legal move.
pub open spec fn checkmate_spec(v: GameView) -> bool {
    is_check_color_spec(v, next_color_spec(v)) && !can_move_spec(v, next_color_spec(v))
}

/// Stalemate: the side to move is not in check yet has no legal move.
pub open spec fn stalemate_spec(v: GameView) -> bool {
    !is_check_color_spec(v, next_color_spec(v)) && !can_move_spec(v, next_color_spec(v))
}

/// The upper-case letter of a file label.
pub open spec fn upper_char(c: char) -> char {
    match c {
        'a' => 'A',
        'b' => 'B',
        'c' => 'C',
        'd' => 'D',
        'e' => 'E',
        'f' => 'F',
        'g' => 'G',
        'h' => 'H',
        _ => c,
    }
}

/// The coordinate notation of an executed move: `"0-0"` or `"0-0-0"` for
/// castling, else start square, `x` on capture or `-` otherwise, target
/// square, and a trailing `+` when the move gave check.
pub open spec fn notation_spec(em: ExecutedMove) -> Seq<char> {
    if is_castling_move_spec(em.piece, em.start_square, em.target_square) {
        if em.target_square.column == 'g' {
            seq!['0', '-', '0']
        } else {
            seq!['0', '-', '0', '-', '0']
        }
    } else {
        seq![
            upper_char(em.start_square.column),
            em.start_square.row,
            if em.is_capture {
                'x'
            } else {
                '-'
            },
            upper_char(em.target_square.column),
            em.target_square.row,
        ] + if em.is_chess {
            seq!['+']
        } else {
            Seq::<char>::empty()
        }
    }
}

} // verus!

