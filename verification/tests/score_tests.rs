use chess_engine::algorithm::score::{piece_value, PawnDifferenceScore};
use chess_engine::board::PieceKind;
use cozy_chess::Board;

#[test]
fn basic_test_pawn_difference_score() {
    let score_fn = PawnDifferenceScore::default();

    let board = Board::default();
    assert_eq!(score_fn.score(&board), 0);

    let board = Board::from_fen("rnbqkbnr/8/8/8/8/8/PPPPPPPP/RNBQKBNR w KQkq - 0 1", false)
        .unwrap();
    assert_eq!(score_fn.score(&board), 80);

    let board = Board::from_fen("rnbqkbnr/pppppppp/8/8/8/8/8/RNBQKBNR w KQkq - 0 1", false)
        .unwrap();
    assert_eq!(score_fn.score(&board), -80);
}

#[test]
fn game_test_pawn_difference_score() {
    let score_fn = PawnDifferenceScore::default();

    // new game: score should be 0
    let mut board = Board::startpos();
    assert_eq!(score_fn.score(&board), 0);

    // white pawn from D2 to D4: score should be 0
    board.play("d2d4".parse().unwrap());
    assert_eq!(score_fn.score(&board), 0);

    // black pawn from E7 to E5: score should be 0
    board.play("e7e5".parse().unwrap());
    assert_eq!(score_fn.score(&board), 0);

    // white pawn takes on E5: score should be one pawn
    board.play("d4e5".parse().unwrap());
    assert_eq!(score_fn.score(&board), 10);

    // black moves queen to G5: score should stay one pawn
    board.play("d8g5".parse().unwrap());
    assert_eq!(score_fn.score(&board), 10);

    // white pushes pawn to E6: score should stay one pawn
    board.play("e5e6".parse().unwrap());
    assert_eq!(score_fn.score(&board), 10);

    // black queen takes bishop on C1: a bishop for a pawn
    board.play("g5c1".parse().unwrap());
    assert_eq!(score_fn.score(&board), -25);
}

#[test]
fn piece_values_are_the_documented_constants() {
    assert_eq!(piece_value(PieceKind::Pawn), 10);
    assert_eq!(piece_value(PieceKind::Knight), 30);
    assert_eq!(piece_value(PieceKind::Bishop), 35);
    assert_eq!(piece_value(PieceKind::Rook), 50);
    assert_eq!(piece_value(PieceKind::Queen), 90);
    assert_eq!(piece_value(PieceKind::King), 0);
}
