use vstd::prelude::*;

use crate::chessboard::BoardSquare;

verus! {

#[derive(Copy, Clone, Debug, PartialEq, Eq, Structural)]
pub enum PieceType {
    King,
    Queen,
    Rook,
    Bishop,
    Knight,
    Pawn,
}

#[derive(Copy, Clone, Debug, PartialEq, Eq, Structural)]
pub enum PieceColor {
    White,
    Black,
}

impl PieceColor {
    /// The other player's color.
    pub open spec fn spec_opponent(self) -> PieceColor {
        match self {
            PieceColor::White => PieceColor::Black,
            PieceColor::Black => PieceColor::White,
        }
    }

    pub fn opponent(&self) -> (r: PieceColor)
        ensures
            r == self.spec_opponent(),
    {
        match self {
            PieceColor::White => PieceColor::Black,
            PieceColor::Black => PieceColor::White,
        }
    }
}

/// A chess piece: its kind, its owner, the square it stands on, and the
/// square it started the game on.  The start square never changes and serves
/// as a proxy for "has never moved" together with the move history.
#[derive(Copy, Clone, Debug, PartialEq, Eq, Structural)]
pub struct Piece {
    pub piece_type: PieceType,
    pub color: PieceColor,
    pub square: BoardSquare,
    pub start_square: BoardSquare,
}

impl Piece {
    pub fn new(piece_type: PieceType, color: PieceColor, position: BoardSquare) -> (r: Piece)
        ensures
            r == (Piece { piece_type, color, square: position, start_square: position }),
    {
        Piece { piece_type, color, square: position, start_square: position }
    }

    /// The square a given piece started the game.
    pub fn start_square(&self) -> (r: BoardSquare)
        ensures
            r == self.start_square,
    {
        self.start_square
    }

    /// Whether this piece is at its start square.
    pub fn is_at_start(&self) -> (r: bool)
        ensures
            r == (self.start_square == self.square),
    {
        self.start_square == self.square
    }
}

#[derive(Copy, Clone, Debug, PartialEq, Eq, Hash, Structural)]
pub enum CapturePolicy {
    Mandatory,
    Allowed,
    Forbidden,
}

/// One ray of movement for a piece: a direction vector, a maximum slide
/// distance, and whether a capture is mandatory, allowed or forbidden on it.
#[derive(Copy, Clone, Debug, PartialEq, Eq, Hash)]
pub struct PieceDelta {
    pub delta: (i8, i8),
    pub max_distance: i8,
    pub capture_policy: CapturePolicy,
}

impl PieceDelta {
    pub fn new(delta: (i8, i8), max_distance: i8) -> (r: Self)
        ensures
            r == (PieceDelta { delta, max_distance, capture_policy: CapturePolicy::Allowed }),
    {
        PieceDelta { delta, max_distance, capture_policy: CapturePolicy::Allowed }
    }

    /// Whether this ray permits a capture at all.
    pub open spec fn spec_may_capture(self) -> bool {
        self.capture_policy == CapturePolicy::Mandatory || self.capture_policy
            == CapturePolicy::Allowed
    }

    pub fn may_capture(&self) -> (r: bool)
        ensures
            r == self.spec_may_capture(),
    {
        match self.capture_policy {
            CapturePolicy::Mandatory => true,
            CapturePolicy::Allowed => true,
            CapturePolicy::Forbidden => false,
        }
    }
}

/// The 16 named unit vectors: 4 orthogonal, 4 diagonal, 8 knight jumps.
#[derive(Copy, Clone, Debug, PartialEq, Eq, Hash, Structural)]
pub enum Direction {
    N,
    E,
    W,
    S,
    NE,
    NW,
    SE,
    SW,
    NNE,
    NNW,
    SSE,
    SSW,
    NEE,
    NWW,
    SEE,
    SWW,
}

impl Direction {
    /// The unit vector of this direction, in (x, y) board coordinates
    /// (y grows towards White's side of the board).
    pub open spec fn spec_delta(self) -> (i8, i8) {
        match self {
            Direction::N => (0i8, -1i8),
            Direction::E => (1i8, 0i8),
            Direction::W => (-1i8, 0i8),
            Direction::S => (0i8, 1i8),
            Direction::NE => (1i8, -1i8),
            Direction::NW => (-1i8, -1i8),
            Direction::SE => (1i8, 1i8),
            Direction::SW => (-1i8, 1i8),
            Direction::NNE => (1i8, -2i8),
            Direction::NNW => (-1i8, -2i8),
            Direction::SSE => (1i8, 2i8),
            Direction::SSW => (-1i8, 2i8),
            Direction::NEE => (2i8, -1i8),
            Direction::NWW => (-2i8, -1i8),
            Direction::SEE => (2i8, 1i8),
            Direction::SWW => (-2i8, 1i8),
        }
    }

    /// Whether walks in this direction may repeat the step (orthogonal and
    /// diagonal directions slide; knight directions are single jumps).
    pub open spec fn spec_sliding(self) -> bool {
        match self {
            Direction::N | Direction::E | Direction::W | Direction::S | Direction::NE
                | Direction::NW | Direction::SE | Direction::SW => true,
            _ => false,
        }
    }

    pub fn delta(&self) -> (r: (i8, i8))
        ensures
            r == self.spec_delta(),
    {
        match self {
            Direction::N => (0, -1),
            Direction::E => (1, 0),
            Direction::W => (-1, 0),
            Direction::S => (0, 1),
            Direction::NE => (1, -1),
            Direction::NW => (-1, -1),
            Direction::SE => (1, 1),
            Direction::SW => (-1, 1),
            Direction::NNE => (1, -2),
            Direction::NNW => (-1, -2),
            Direction::SSE => (1, 2),
            Direction::SSW => (-1, 2),
            Direction::NEE => (2, -1),
            Direction::NWW => (-2, -1),
            Direction::SEE => (2, 1),
            Direction::SWW => (-2, 1),
        }
    }

    /// Whether walks in this direction continue through empty squares.
    pub fn sliding(&self) -> (r: bool)
        ensures
            r == self.spec_sliding(),
    {
        match self {
            Direction::N | Direction::E | Direction::W | Direction::S | Direction::NE
                | Direction::NW | Direction::SE | Direction::SW => true,
            _ => false,
        }
    }

    pub fn all() -> (r: Vec<Direction>)
        ensures
            r@ == all_directions(),
    {
        let r = vec![
            Direction::N,
            Direction::NNE,
            Direction::NE,
            Direction::NEE,
            Direction::E,
            Direction::SEE,
            Direction::SE,
            Direction::SSE,
            Direction::S,
            Direction::SSW,
            Direction::SW,
            Direction::SWW,
            Direction::W,
            Direction::NWW,
            Direction::NW,
            Direction::NNW,
        ];
        proof {
            assert(r@ =~= all_directions());
        }
        r
    }

    pub fn rank_or_file() -> (r: Vec<Direction>)
        ensures
            r@ == rank_or_file_directions(),
    {
        let r = vec![Direction::N, Direction::E, Direction::S, Direction::W];
        proof {
            assert(r@ =~= rank_or_file_directions());
        }
        r
    }

    pub fn diagonally() -> (r: Vec<Direction>)
        ensures
            r@ == diagonal_directions(),
    {
        let r = vec![Direction::NE, Direction::SE, Direction::SW, Direction::NW];
        proof {
            assert(r@ =~= diagonal_directions());
        }
        r
    }

    pub fn adjacent() -> (r: Vec<Direction>)
        ensures
            r@ == adjacent_directions(),
    {
        let mut r = Self::rank_or_file();
        let mut additional = Self::diagonally();
        r.append(&mut additional);
        proof {
            assert(r@ =~= adjacent_directions());
        }
        r
    }
}

/// The 16 directions in the order contexts are reported in.
pub open spec fn all_directions() -> Seq<Direction> {
    seq![
        Direction::N,
        Direction::NNE,
        Direction::NE,
        Direction::NEE,
        Direction::E,
        Direction::SEE,
        Direction::SE,
        Direction::SSE,
        Direction::S,
        Direction::SSW,
        Direction::SW,
        Direction::SWW,
        Direction::W,
        Direction::NWW,
        Direction::NW,
        Direction::NNW,
    ]
}

pub open spec fn rank_or_file_directions() -> Seq<Direction> {
    seq![Direction::N, Direction::E, Direction::S, Direction::W]
}

pub open spec fn diagonal_directions() -> Seq<Direction> {
    seq![Direction::NE, Direction::SE, Direction::SW, Direction::NW]
}

pub open spec fn adjacent_directions() -> Seq<Direction> {
    rank_or_file_directions() + diagonal_directions()
}

/// A ray with capture allowed, the usual case.
pub open spec fn ray(dx: int, dy: int, max: int) -> PieceDelta {
    PieceDelta {
        delta: (dx as i8, dy as i8),
        max_distance: max as i8,
        capture_policy: CapturePolicy::Allowed,
    }
}

pub open spec fn king_deltas() -> Seq<PieceDelta> {
    seq![
        ray(0, -1, 1),
        ray(1, 0, 1),
        ray(0, 1, 1),
        ray(-1, 0, 1),
        ray(1, -1, 1),
        ray(1, 1, 1),
        ray(-1, 1, 1),
        ray(-1, -1, 1),
    ]
}

pub open spec fn queen_deltas() -> Seq<PieceDelta> {
    seq![
        ray(0, -1, 7),
        ray(1, 0, 7),
        ray(0, 1, 7),
        ray(-1, 0, 7),
        ray(1, -1, 7),
        ray(1, 1, 7),
        ray(-1, 1, 7),
        ray(-1, -1, 7),
    ]
}

pub open spec fn rook_deltas() -> Seq<PieceDelta> {
    seq![ray(0, -1, 7), ray(1, 0, 7), ray(0, 1, 7), ray(-1, 0, 7)]
}

pub open spec fn bishop_deltas() -> Seq<PieceDelta> {
    seq![ray(1, -1, 7), ray(1, 1, 7), ray(-1, 1, 7), ray(-1, -1, 7)]
}

pub open spec fn knight_deltas() -> Seq<PieceDelta> {
    seq![
        ray(-1, -2, 1),
        ray(1, -2, 1),
        ray(2, -1, 1),
        ray(2, 1, 1),
        ray(1, 2, 1),
        ray(-1, 2, 1),
        ray(-2, 1, 1),
        ray(-2, -1, 1),
    ]
}

/// The movement rays of a pawn: one forward ray (two steps long while the
/// pawn is still at its start square) on which capture is forbidden, and up
/// to two one-step diagonal rays, omitted at the board edge, on which a
/// capture is mandatory.
pub open spec fn pawn_deltas(pawn: Piece) -> Seq<PieceDelta> {
    let dy: i8 = if pawn.color == PieceColor::White {
        -1i8
    } else {
        1i8
    };
    let max: i8 = if pawn.start_square == pawn.square {
        2i8
    } else {
        1i8
    };
    let fwd = PieceDelta {
        delta: (0i8, dy),
        max_distance: max,
        capture_policy: CapturePolicy::Forbidden,
    };
    let base = seq![fwd];
    let with_left = if pawn.square.column != 'a' {
        base.push(
            PieceDelta {
                delta: (-1i8, dy),
                max_distance: 1i8,
                capture_policy: CapturePolicy::Mandatory,
            },
        )
    } else {
        base
    };
    if pawn.square.column != 'h' {
        with_left.push(
            PieceDelta {
                delta: (1i8, dy),
                max_distance: 1i8,
                capture_policy: CapturePolicy::Mandatory,
            },
        )
    } else {
        with_left
    }
}

/// The movement geometry of a piece, one entry per ray.
pub open spec fn spec_piece_deltas(piece: Piece) -> Seq<PieceDelta> {
    match piece.piece_type {
        PieceType::King => king_deltas(),
        PieceType::Queen => queen_deltas(),
        PieceType::Rook => rook_deltas(),
        PieceType::Bishop => bishop_deltas(),
        PieceType::Knight => knight_deltas(),
        PieceType::Pawn => pawn_deltas(piece),
    }
}

/// Every ray of every piece moves at most two squares per step and slides at
/// most seven steps; this keeps all walk arithmetic inside `i8`.
pub proof fn lemma_piece_deltas_bounds(piece: Piece)
    ensures
        forall|i: int|
            0 <= i < spec_piece_deltas(piece).len() ==> {
                let pd = #[trigger] spec_piece_deltas(piece)[i];
                -2 <= pd.delta.0 <= 2 && -2 <= pd.delta.1 <= 2 && 1 <= pd.max_distance <= 7
            },
{
}

/// A pawn's rays all advance one rank per step, and only the straight ray
/// may be two steps long.
pub proof fn lemma_pawn_deltas_shape(piece: Piece)
    requires
        piece.piece_type == PieceType::Pawn,
    ensures
        forall|i: int|
            0 <= i < spec_piece_deltas(piece).len() ==> {
                let pd = #[trigger] spec_piece_deltas(piece)[i];
                (pd.delta.1 == 1 || pd.delta.1 == -1) && (pd.delta.0 != 0 ==> pd.max_distance
                    == 1)
            },
{
}

/// A king's rays are all single steps of at most one file.
pub proof fn lemma_king_deltas_shape(piece: Piece)
    requires
        piece.piece_type == PieceType::King,
    ensures
        forall|i: int|
            0 <= i < spec_piece_deltas(piece).len() ==> {
                let pd = #[trigger] spec_piece_deltas(piece)[i];
                pd.max_distance == 1 && -1 <= pd.delta.0 <= 1
            },
{
}

pub fn piece_deltas(piece: &Piece) -> (r: Vec<PieceDelta>)
    ensures
        r@ == spec_piece_deltas(*piece),
{
    match piece.piece_type {
        PieceType::King => king_move_deltas(),
        PieceType::Queen => queen_move_deltas(),
        PieceType::Rook => rook_move_deltas(),
        PieceType::Bishop => bishop_move_deltas(),
        PieceType::Knight => knight_move_deltas(),
        PieceType::Pawn => pawn_move_deltas(piece),
    }
}

fn king_move_deltas() -> (r: Vec<PieceDelta>)
    ensures
        r@ == king_deltas(),
{
    let r = vec![
        PieceDelta::new((0, -1), 1),
        PieceDelta::new((1, 0), 1),
        PieceDelta::new((0, 1), 1),
        PieceDelta::new((-1, 0), 1),
        PieceDelta::new((1, -1), 1),
        PieceDelta::new((1, 1), 1),
        PieceDelta::new((-1, 1), 1),
        PieceDelta::new((-1, -1), 1),
    ];
    proof {
        assert(r@ =~= king_deltas());
    }
    r
}

fn queen_move_deltas() -> (r: Vec<PieceDelta>)
    ensures
        r@ == queen_deltas(),
{
    let r = vec![
        PieceDelta::new((0, -1), 7),
        PieceDelta::new((1, 0), 7),
        PieceDelta::new((0, 1), 7),
        PieceDelta::new((-1, 0), 7),
        PieceDelta::new((1, -1), 7),
        PieceDelta::new((1, 1), 7),
        PieceDelta::new((-1, 1), 7),
        PieceDelta::new((-1, -1), 7),
    ];
    proof {
        assert(r@ =~= queen_deltas());
    }
    r
}

fn rook_move_deltas() -> (r: Vec<PieceDelta>)
    ensures
        r@ == rook_deltas(),
{
    let r = vec![
        PieceDelta::new((0, -1), 7),
        PieceDelta::new((1, 0), 7),
        PieceDelta::new((0, 1), 7),
        PieceDelta::new((-1, 0), 7),
    ];
    proof {
        assert(r@ =~= rook_deltas());
    }
    r
}

fn bishop_move_deltas() -> (r: Vec<PieceDelta>)
    ensures
        r@ == bishop_deltas(),
{
    let r = vec![
        PieceDelta::new((1, -1), 7),
        PieceDelta::new((1, 1), 7),
        PieceDelta::new((-1, 1), 7),
        PieceDelta::new((-1, -1), 7),
    ];
    proof {
        assert(r@ =~= bishop_deltas());
    }
    r
}

fn knight_move_deltas() -> (r: Vec<PieceDelta>)
    ensures
        r@ == knight_deltas(),
{
    let r = vec![
        PieceDelta::new((-1, -2), 1),
        PieceDelta::new((1, -2), 1),
        PieceDelta::new((2, -1), 1),
        PieceDelta::new((2, 1), 1),
        PieceDelta::new((1, 2), 1),
        PieceDelta::new((-1, 2), 1),
        PieceDelta::new((-2, 1), 1),
        PieceDelta::new((-2, -1), 1),
    ];
    proof {
        assert(r@ =~= knight_deltas());
    }
    r
}

fn pawn_move_deltas(pawn: &Piece) -> (r: Vec<PieceDelta>)
    ensures
        r@ == pawn_deltas(*pawn),
{
    let mut result: Vec<PieceDelta> = Vec::new();
    let dy: i8 = match pawn.color {
        PieceColor::White => -1,
        PieceColor::Black => 1,
    };
    let max_dist: i8 = if pawn.is_at_start() {
        2
    } else {
        1
    };
    let mut default_delta = PieceDelta::new((0, dy), max_dist);
    default_delta.capture_policy = CapturePolicy::Forbidden;
    result.push(default_delta);
    if pawn.square.column != 'a' {
        let mut left_capture_delta = default_delta;
        left_capture_delta.delta = (-1, dy);
        left_capture_delta.capture_policy = CapturePolicy::Mandatory;
        left_capture_delta.max_distance = 1;
        result.push(left_capture_delta);
    }
    if pawn.square.column != 'h' {
        let mut right_capture_delta = default_delta;
        right_capture_delta.delta = (1, dy);
        right_capture_delta.capture_policy = CapturePolicy::Mandatory;
        right_capture_delta.max_distance = 1;
        result.push(right_capture_delta);
    }
    proof {
        assert(result@ =~= pawn_deltas(*pawn));
    }
    result
}

} // verus!
