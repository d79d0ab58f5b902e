use chess_engine::chessboard::{BoardSquare, Chessboard};
use chess_engine::game::ChessGame;
use chess_engine::pieces::{Piece, PieceColor, PieceType};

/// Execute the move of the piece standing on `from` onto `to`, picking it
/// from the engine's own legal-move list.
fn play(game: &mut ChessGame, from: (i8, i8), to: (i8, i8)) {
    let piece = game.piece_at(from).expect("no piece on the source square");
    let moves = game.possible_moves(&piece);
    let chosen = moves
        .iter()
        .find(|m| m.target.position() == to)
        .expect("move not offered");
    game.execute_move(chosen);
}

fn coords(file: char, rank: char) -> (i8, i8) {
    let sq = BoardSquare::new(rank, file);
    sq.position()
}

#[test]
fn initial_position_has_the_standard_roster() {
    let game = ChessGame::new();
    assert_eq!(game.pieces.len(), 32);
    let whites = game.pieces.iter().filter(|p| p.color == PieceColor::White).count();
    let blacks = game.pieces.iter().filter(|p| p.color == PieceColor::Black).count();
    assert_eq!(whites, 16);
    assert_eq!(blacks, 16);
    let king = game.piece_at(coords('e', '1')).unwrap();
    assert_eq!(king.piece_type, PieceType::King);
    assert_eq!(king.color, PieceColor::White);
    let queen = game.piece_at(coords('d', '1')).unwrap();
    assert_eq!(queen.piece_type, PieceType::Queen);
    assert_eq!(queen.color, PieceColor::White);
    assert_eq!(game.next_move_color(), PieceColor::White);
    assert!(!game.is_check());
}

#[test]
fn a_quiet_move_preserves_the_roster_size() {
    let mut game = ChessGame::new();
    play(&mut game, coords('e', '2'), coords('e', '4'));
    assert_eq!(game.pieces.len(), 32);
    let history = game.executed_moves();
    assert_eq!(history.len(), 1);
    assert!(!history[0].is_capture);
    assert_eq!(history[0].coord_notation(), "E2-E4".to_string());
    assert_eq!(game.next_move_color(), PieceColor::Black);
}

#[test]
fn a_capture_removes_exactly_one_piece() {
    let mut game = ChessGame::new();
    play(&mut game, coords('e', '2'), coords('e', '4'));
    play(&mut game, coords('d', '7'), coords('d', '5'));
    play(&mut game, coords('e', '4'), coords('d', '5'));
    assert_eq!(game.pieces.len(), 31);
    let history = game.executed_moves();
    assert!(history[2].is_capture);
    assert_eq!(history[2].coord_notation(), "E4xD5".to_string());
}

#[test]
fn wrong_turn_and_null_requests_are_silently_dropped() {
    let mut game = ChessGame::new();
    // Black may not move first
    let black_pawn = game.piece_at(coords('e', '7')).unwrap();
    let target = game.board.square_at(coords('e', '5')).unwrap();
    let illegal = chess_engine::game::Move::new(black_pawn, target);
    game.execute_move(&illegal);
    assert_eq!(game.executed_moves().len(), 0);
    // a null move is ignored as well
    let white_pawn = game.piece_at(coords('e', '2')).unwrap();
    let own = chess_engine::game::Move::new(white_pawn, white_pawn.square);
    game.execute_move(&own);
    assert_eq!(game.executed_moves().len(), 0);
}

#[test]
fn kingside_castling_moves_king_and_rook_in_one_entry() {
    let mut game = ChessGame::new();
    play(&mut game, coords('g', '1'), coords('f', '3'));
    play(&mut game, coords('a', '7'), coords('a', '6'));
    play(&mut game, coords('e', '2'), coords('e', '3'));
    play(&mut game, coords('b', '7'), coords('b', '6'));
    play(&mut game, coords('f', '1'), coords('e', '2'));
    play(&mut game, coords('c', '7'), coords('c', '6'));

    let king = game.piece_at(coords('e', '1')).unwrap();
    let moves = game.possible_moves(&king);
    assert!(moves.iter().any(|m| m.target.position() == coords('g', '1')));

    let history_before = game.executed_moves().len();
    play(&mut game, coords('e', '1'), coords('g', '1'));

    let king_now = game.piece_at(coords('g', '1')).unwrap();
    assert_eq!(king_now.piece_type, PieceType::King);
    let rook_now = game.piece_at(coords('f', '1')).unwrap();
    assert_eq!(rook_now.piece_type, PieceType::Rook);
    assert!(game.piece_at(coords('h', '1')).is_none());
    let history = game.executed_moves();
    assert_eq!(history.len(), history_before + 1);
    assert_eq!(game.pieces.len(), 32);
    assert!(history.last().unwrap().is_castling());
    assert_eq!(history.last().unwrap().coord_notation(), "0-0".to_string());
}

#[test]
fn en_passant_captures_the_passed_pawn() {
    let mut game = ChessGame::new();
    play(&mut game, coords('e', '2'), coords('e', '4'));
    play(&mut game, coords('a', '7'), coords('a', '6'));
    play(&mut game, coords('e', '4'), coords('e', '5'));
    play(&mut game, coords('d', '7'), coords('d', '5'));

    let pawn = game.piece_at(coords('e', '5')).unwrap();
    let moves = game.possible_moves(&pawn);
    assert!(moves.iter().any(|m| m.target.position() == coords('d', '6')));

    play(&mut game, coords('e', '5'), coords('d', '6'));
    assert!(game.piece_at(coords('d', '5')).is_none());
    let capturer = game.piece_at(coords('d', '6')).unwrap();
    assert_eq!(capturer.piece_type, PieceType::Pawn);
    assert_eq!(capturer.color, PieceColor::White);
    assert_eq!(game.pieces.len(), 31);
    let history = game.executed_moves();
    assert!(history.last().unwrap().is_capture);
    assert_eq!(history.last().unwrap().coord_notation(), "E5xD6".to_string());
}

#[test]
fn promotion_blocks_play_until_the_pawn_is_exchanged() {
    let mut game = ChessGame::new();
    game.pieces = vec![
        Piece::new(PieceType::King, PieceColor::White, BoardSquare::new('1', 'e')),
        Piece::new(PieceType::King, PieceColor::Black, BoardSquare::new('8', 'h')),
        Piece::new(PieceType::Pawn, PieceColor::White, BoardSquare::new('7', 'a')),
    ];
    play(&mut game, coords('a', '7'), coords('a', '8'));

    let pending = game.promotion_pawn();
    assert!(pending.is_some());
    assert_eq!(pending.unwrap().square, BoardSquare::new('8', 'a'));

    // while the promotion is pending every further request is rejected
    let black_king = game.piece_at(coords('h', '8')).unwrap();
    let target = game.board.square_at(coords('h', '7')).unwrap();
    game.execute_move(&chess_engine::game::Move::new(black_king, target));
    assert_eq!(game.executed_moves().len(), 1);
    assert!(game.piece_at(coords('h', '7')).is_none());

    game.exchange_promotion_pawn(PieceType::Queen);
    assert!(game.promotion_pawn().is_none());
    let promoted = game.piece_at(coords('a', '8')).unwrap();
    assert_eq!(promoted.piece_type, PieceType::Queen);

    // play resumes normally
    play(&mut game, coords('h', '8'), coords('h', '7'));
    assert_eq!(game.executed_moves().len(), 2);
}

#[test]
fn a_cornered_king_with_no_moves_is_stalemate() {
    let mut game = ChessGame::new();
    game.board = Chessboard::new();
    game.pieces = vec![
        Piece::new(PieceType::King, PieceColor::Black, BoardSquare::new('8', 'a')),
        Piece::new(PieceType::King, PieceColor::White, BoardSquare::new('6', 'b')),
        Piece::new(PieceType::Queen, PieceColor::White, BoardSquare::new('7', 'c')),
    ];
    game.initial_color = PieceColor::Black;

    assert!(!game.is_check_color(PieceColor::Black));
    let king = game.piece_at(coords('a', '8')).unwrap();
    assert!(game.possible_moves(&king).is_empty());
    assert!(game.is_stalemate());
    assert!(!game.is_check_mate());
}

#[test]
fn scholars_mate_ends_in_checkmate() {
    let mut game = ChessGame::new();
    play(&mut game, coords('e', '2'), coords('e', '4'));
    play(&mut game, coords('e', '7'), coords('e', '5'));
    play(&mut game, coords('f', '1'), coords('c', '4'));
    play(&mut game, coords('b', '8'), coords('c', '6'));
    play(&mut game, coords('d', '1'), coords('h', '5'));
    play(&mut game, coords('g', '8'), coords('f', '6'));
    play(&mut game, coords('h', '5'), coords('f', '7'));

    assert!(game.is_check());
    assert!(game.is_check_color(PieceColor::Black));
    assert!(game.is_check_mate());
    assert!(!game.is_stalemate());
    let history = game.executed_moves();
    assert!(history.last().unwrap().is_chess);
    assert_eq!(history.last().unwrap().coord_notation(), "H5xF7+".to_string());
    // every black piece is out of moves
    for piece in game.pieces.iter().filter(|p| p.color == PieceColor::Black) {
        assert!(game.possible_moves(piece).is_empty());
    }
}

#[test]
fn check_is_reported_and_cached() {
    let mut game = ChessGame::new();
    play(&mut game, coords('e', '2'), coords('e', '4'));
    play(&mut game, coords('f', '7'), coords('f', '6'));
    play(&mut game, coords('d', '1'), coords('h', '5'));
    assert!(game.is_check());
    assert!(game.is_check_color(PieceColor::Black));
    assert!(!game.is_check_color(PieceColor::White));
    let checks = game.chess_moves();
    assert_eq!(checks.len(), 1);
    assert_eq!(checks[0].piece.piece_type, PieceType::Queen);
    assert_eq!(checks[0].target.position(), coords('e', '8'));
    assert!(!game.is_check_mate());
}

#[test]
fn queenside_castling_uses_the_long_notation() {
    let mut game = ChessGame::new();
    play(&mut game, coords('b', '1'), coords('a', '3'));
    play(&mut game, coords('a', '7'), coords('a', '6'));
    play(&mut game, coords('d', '2'), coords('d', '3'));
    play(&mut game, coords('b', '7'), coords('b', '6'));
    play(&mut game, coords('c', '1'), coords('e', '3'));
    play(&mut game, coords('c', '7'), coords('c', '6'));
    play(&mut game, coords('d', '1'), coords('d', '2'));
    play(&mut game, coords('d', '7'), coords('d', '6'));

    let king = game.piece_at(coords('e', '1')).unwrap();
    let moves = game.possible_moves(&king);
    assert!(moves.iter().any(|m| m.target.position() == coords('c', '1')));

    play(&mut game, coords('e', '1'), coords('c', '1'));
    assert_eq!(game.piece_at(coords('c', '1')).unwrap().piece_type, PieceType::King);
    assert_eq!(game.piece_at(coords('d', '1')).unwrap().piece_type, PieceType::Rook);
    assert!(game.piece_at(coords('a', '1')).is_none());
    assert_eq!(game.pieces.len(), 32);
    let history = game.executed_moves();
    assert_eq!(history.last().unwrap().coord_notation(), "0-0-0".to_string());
}

#[test]
fn black_can_capture_en_passant_too() {
    let mut game = ChessGame::new();
    play(&mut game, coords('a', '2'), coords('a', '3'));
    play(&mut game, coords('d', '7'), coords('d', '5'));
    play(&mut game, coords('a', '3'), coords('a', '4'));
    play(&mut game, coords('d', '5'), coords('d', '4'));
    play(&mut game, coords('e', '2'), coords('e', '4'));

    let pawn = game.piece_at(coords('d', '4')).unwrap();
    let moves = game.possible_moves(&pawn);
    assert!(moves.iter().any(|m| m.target.position() == coords('e', '3')));
    play(&mut game, coords('d', '4'), coords('e', '3'));
    assert!(game.piece_at(coords('e', '4')).is_none());
    assert_eq!(game.piece_at(coords('e', '3')).unwrap().color, PieceColor::Black);
    assert_eq!(game.pieces.len(), 31);
}

#[test]
fn the_en_passant_window_closes_after_one_ply() {
    let mut game = ChessGame::new();
    play(&mut game, coords('e', '2'), coords('e', '4'));
    play(&mut game, coords('a', '7'), coords('a', '6'));
    play(&mut game, coords('e', '4'), coords('e', '5'));
    play(&mut game, coords('d', '7'), coords('d', '5'));
    // White declines the en-passant capture
    play(&mut game, coords('h', '2'), coords('h', '3'));
    play(&mut game, coords('a', '6'), coords('a', '5'));
    // the window is gone: the e5 pawn can no longer take on d6
    let pawn = game.piece_at(coords('e', '5')).unwrap();
    let moves = game.possible_moves(&pawn);
    assert!(!moves.iter().any(|m| m.target.position() == coords('d', '6')));
}

#[test]
fn blocked_pieces_cannot_jump() {
    let game = ChessGame::new();
    // at the start the rooks, bishops and the queen are boxed in
    let rook = game.piece_at(coords('a', '1')).unwrap();
    assert!(game.possible_moves(&rook).is_empty());
    let bishop = game.piece_at(coords('c', '1')).unwrap();
    assert!(game.possible_moves(&bishop).is_empty());
    let queen = game.piece_at(coords('d', '1')).unwrap();
    assert!(game.possible_moves(&queen).is_empty());
    // the knights jump over the pawn rank
    let knight = game.piece_at(coords('b', '1')).unwrap();
    assert_eq!(game.possible_moves(&knight).len(), 2);
    // a fresh pawn has the single and the double step
    let pawn = game.piece_at(coords('e', '2')).unwrap();
    assert_eq!(game.possible_moves(&pawn).len(), 2);
}

#[test]
fn a_pinned_piece_may_not_expose_its_king() {
    let mut game = ChessGame::new();
    game.pieces = vec![
        Piece::new(PieceType::King, PieceColor::White, BoardSquare::new('1', 'e')),
        Piece::new(PieceType::Rook, PieceColor::White, BoardSquare::new('2', 'e')),
        Piece::new(PieceType::Queen, PieceColor::Black, BoardSquare::new('8', 'e')),
        Piece::new(PieceType::King, PieceColor::Black, BoardSquare::new('8', 'a')),
    ];
    let rook = game.piece_at(coords('e', '2')).unwrap();
    let moves = game.possible_moves(&rook);
    // the rook may slide along the e-file but never leave it
    assert!(moves.iter().all(|m| m.target.position().0 == 4));
    assert!(moves.iter().any(|m| m.target.position() == coords('e', '8')));
}
