//! A rules authority for two-player chess: given a board state and move
//! history it determines legal moves, executes them, and reports
//! check, checkmate and stalemate.
//!
//! The engine is a compact state machine over a roster of pieces.  Every
//! query and command carries a contract: move generation is proved equal to
//! a mathematical model of the walk over the movement tables, and move
//! execution is proved to preserve the roster invariants (at most one piece
//! per square, coherent en-passant window, coherent promotion state).

pub mod chessboard;
pub mod pieces;
pub mod model;
pub mod game;
pub mod user_move;
