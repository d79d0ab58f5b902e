use chess_engine::chessboard::{BoardSquare, Chessboard, SquareColor};
use chess_engine::game::ChessGame;
use chess_engine::pieces::{piece_deltas, CapturePolicy, Direction, Piece, PieceColor, PieceType};
use chess_engine::user_move::UserMove;

#[test]
fn board_has_64_squares_in_reading_order() {
    let board = Chessboard::new();
    let squares = board.squares();
    assert_eq!(squares.len(), 64);
    assert_eq!(squares[0], BoardSquare::new('8', 'a'));
    assert_eq!(squares[7], BoardSquare::new('8', 'h'));
    assert_eq!(squares[63], BoardSquare::new('1', 'h'));
}

#[test]
fn square_coordinates_and_labels() {
    let e2 = BoardSquare::new('2', 'e');
    assert_eq!(e2.x(), 4);
    assert_eq!(e2.y(), 6);
    assert_eq!(e2.position(), (4, 6));
    assert_eq!(e2.file(), "e".to_string());
    assert_eq!(e2.rank(), "2".to_string());
    assert_eq!(e2.row(), "2".to_string());
    assert_eq!(e2.column(), "e".to_string());
}

#[test]
fn square_lookup_is_bounds_checked() {
    let board = Chessboard::new();
    assert_eq!(board.square_at((0, 0)), Some(BoardSquare::new('8', 'a')));
    assert_eq!(board.square_at((7, 7)), Some(BoardSquare::new('1', 'h')));
    assert_eq!(board.square_at((8, 0)), None);
    assert_eq!(board.square_at((0, -1)), None);
}

#[test]
fn square_relative_moves_by_delta() {
    let board = Chessboard::new();
    let e2 = BoardSquare::new('2', 'e');
    assert_eq!(board.square_relative(e2, (0, -2)), Some(BoardSquare::new('4', 'e')));
    assert_eq!(board.square_relative(e2, (4, 0)), None);
}

#[test]
fn squares_between_spans_a_rank_inclusively() {
    let board = Chessboard::new();
    let e1 = BoardSquare::new('1', 'e');
    let h1 = BoardSquare::new('1', 'h');
    let run = board.all_squares_between(e1, h1);
    assert_eq!(run.len(), 4);
    assert_eq!(run[0], BoardSquare::new('1', 'e'));
    assert_eq!(run[3], BoardSquare::new('1', 'h'));
    let e4 = BoardSquare::new('4', 'e');
    assert!(board.all_squares_between(e1, e4).is_empty());
}

#[test]
fn square_colors_follow_the_checkerboard() {
    assert_eq!(BoardSquare::new('1', 'a').color(), SquareColor::Black);
    assert_eq!(BoardSquare::new('1', 'h').color(), SquareColor::White);
    assert_eq!(BoardSquare::new('8', 'a').color(), SquareColor::White);
    assert_eq!(BoardSquare::new('4', 'd').color(), SquareColor::Black);
}

#[test]
fn sixteen_directions_with_unit_deltas() {
    let all = Direction::all();
    assert_eq!(all.len(), 16);
    assert_eq!(Direction::rank_or_file().len(), 4);
    assert_eq!(Direction::diagonally().len(), 4);
    assert_eq!(Direction::adjacent().len(), 8);
    assert_eq!(Direction::N.delta(), (0, -1));
    assert_eq!(Direction::SWW.delta(), (-2, 1));
}

#[test]
fn pawn_deltas_depend_on_start_and_edge() {
    let fresh = Piece::new(PieceType::Pawn, PieceColor::White, BoardSquare::new('2', 'e'));
    let ds = piece_deltas(&fresh);
    assert_eq!(ds.len(), 3);
    assert_eq!(ds[0].delta, (0, -1));
    assert_eq!(ds[0].max_distance, 2);
    assert_eq!(ds[0].capture_policy, CapturePolicy::Forbidden);
    assert_eq!(ds[1].capture_policy, CapturePolicy::Mandatory);

    let edge = Piece::new(PieceType::Pawn, PieceColor::Black, BoardSquare::new('7', 'a'));
    let edge_ds = piece_deltas(&edge);
    assert_eq!(edge_ds.len(), 2);
    assert_eq!(edge_ds[0].delta, (0, 1));
    assert_eq!(edge_ds[1].delta, (1, 1));
}

#[test]
fn queen_slides_in_eight_directions() {
    let queen = Piece::new(PieceType::Queen, PieceColor::White, BoardSquare::new('4', 'd'));
    let ds = piece_deltas(&queen);
    assert_eq!(ds.len(), 8);
    assert!(ds.iter().all(|d| d.max_distance == 7));
    assert!(ds.iter().all(|d| d.may_capture()));
}

#[test]
fn knight_jumps_are_single_steps() {
    let knight = Piece::new(PieceType::Knight, PieceColor::White, BoardSquare::new('1', 'b'));
    let ds = piece_deltas(&knight);
    assert_eq!(ds.len(), 8);
    assert!(ds.iter().all(|d| d.max_distance == 1));
}

#[test]
fn opponent_swaps_colors() {
    assert_eq!(PieceColor::White.opponent(), PieceColor::Black);
    assert_eq!(PieceColor::Black.opponent(), PieceColor::White);
}

#[test]
fn piece_remembers_its_start_square() {
    let p = Piece::new(PieceType::Rook, PieceColor::White, BoardSquare::new('1', 'a'));
    assert_eq!(p.start_square(), BoardSquare::new('1', 'a'));
    assert!(p.is_at_start());
}

#[test]
fn user_move_finds_the_move_for_a_target() {
    let game = ChessGame::new();
    let pawn = game.piece_at((4, 6)).unwrap();
    let moves = game.possible_moves(&pawn);
    let user_move = UserMove::new(pawn, moves);
    let e4 = BoardSquare::new('4', 'e');
    let chosen = user_move.possible_move_to_target(e4);
    assert!(chosen.is_some());
    assert_eq!(chosen.unwrap().target, e4);
    let off = user_move.possible_move_to_target(BoardSquare::new('5', 'e'));
    assert!(off.is_none());
}

#[test]
fn context_reports_sixteen_directions() {
    let game = ChessGame::new();
    let e4 = BoardSquare::new('4', 'e');
    let context = game.square_context(&e4);
    assert_eq!(context.len(), 16);
    // straight north of e4 the nearest occupant is the e7 pawn
    let north = context
        .iter()
        .find(|(dir, _)| *dir == Direction::N)
        .unwrap()
        .1;
    assert_eq!(north.unwrap().square, BoardSquare::new('7', 'e'));
}

#[test]
fn challengers_of_an_open_square() {
    let game = ChessGame::new();
    // e3 can be reached by the e2 pawn; the g1 knight covers e2, not e3
    let e3 = BoardSquare::new('3', 'e');
    let challengers = game.square_challengers(&e3);
    assert_eq!(challengers.len(), 1);
    assert_eq!(challengers[0].square, BoardSquare::new('2', 'e'));
}

#[test]
fn hypothetical_moves_leave_the_game_untouched() {
    let game = ChessGame::new();
    let pawn = game.piece_at((4, 6)).unwrap();
    let moves = game.possible_moves(&pawn);
    let forward = moves.iter().find(|m| m.target.position() == (4, 4)).unwrap();
    let copy = game.calculate_move(forward);
    assert!(copy.piece_at((4, 4)).is_some());
    assert!(copy.piece_at((4, 6)).is_none());
    // the original game still has the pawn on its home square
    assert!(game.piece_at((4, 6)).is_some());
    assert!(game.piece_at((4, 4)).is_none());
    assert_eq!(game.executed_moves().len(), 0);
    assert_eq!(copy.executed_moves().len(), 1);
}

#[test]
fn history_records_which_pieces_moved() {
    let mut game = ChessGame::new();
    let pawn = game.piece_at((4, 6)).unwrap();
    assert!(!game.has_already_moved(&pawn));
    let moves = game.possible_moves(&pawn);
    let forward = moves.iter().find(|m| m.target.position() == (4, 4)).unwrap();
    game.execute_move(forward);
    let moved = game.piece_at((4, 4)).unwrap();
    assert!(game.has_already_moved(&moved));
    assert!(!moved.is_at_start());
    let other = game.piece_at((7, 6)).unwrap();
    assert!(!game.has_already_moved(&other));
}

#[test]
fn challengers_see_knights_and_pawns_alike() {
    let mut game = ChessGame::new();
    let knight = game.piece_at((6, 7)).unwrap();
    let jump = game
        .possible_moves(&knight)
        .into_iter()
        .find(|m| m.target.position() == (5, 5))
        .unwrap();
    game.execute_move(&jump);
    // e5 is now covered by the f3 knight and by the e7 pawn's double step
    let e5 = BoardSquare::new('5', 'e');
    let challengers = game.square_challengers(&e5);
    assert_eq!(challengers.len(), 2);
    assert!(challengers.iter().any(|p| p.piece_type == PieceType::Knight));
    assert!(challengers.iter().any(|p| p.piece_type == PieceType::Pawn));
}
