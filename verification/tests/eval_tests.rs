use chess_engine::algorithm::eval::{
    get_sorted_moves, AlphaBetaNegamax, NaiveEvaluator, Negamax, DECISIVE_SCORE,
};
use chess_engine::algorithm::score::PawnDifferenceScore;
use chess_engine::board::Mv;
use cozy_chess::{Board, Color, Move, Square};

fn mv_of(m: Move) -> Mv {
    Mv {
        from: m.from as u8,
        to: m.to as u8,
        promotion: m.promotion.map(|p| p as u8),
    }
}

fn get_all_moves(board: &Board, side: &Color) -> Vec<Mv> {
    let mut moves = Vec::new();
    board.generate_moves_for(board.colors(*side), |piece_moves| {
        moves.extend(piece_moves.into_iter().map(mv_of));
        false
    });
    moves
}

fn sorter(mov: &Mv) -> u64 {
    100_000 * mov.from as u64 + 1_000 * mov.to as u64 + match mov.promotion {
        Some(piece) => piece as u64,
        None => 0,
    }
}

#[test]
fn test_startpos_get_sorted_moves() {
    //test for startpos
    let board = Board::startpos();
    let side = board.side_to_move();

    let mut expected = get_all_moves(&board, &side);
    let mut moves = get_sorted_moves(&board);

    expected.sort_by_key(sorter);
    moves.sort_by_key(sorter);

    assert_eq!(moves.len(), expected.len());
    assert_eq!(moves, expected);
}

#[test]
fn test_game_get_sorted_moves() {
    //test across a short game
    let mut board = Board::startpos();
    let game_moves = vec!["d2d4", "e7e5", "d4e5", "d8g5", "e5e6", "g5c1"];

    for mov in game_moves {
        println!("Move: {}", mov);
        board.play(mov.parse().unwrap());

        let side = board.side_to_move();
        println!("Side to move: {:?}", side);

        let mut expected = get_all_moves(&board, &side);
        let mut moves = get_sorted_moves(&board);

        expected.sort_by_key(sorter);
        moves.sort_by_key(sorter);

        assert_eq!(moves.len(), expected.len(), "Moves vs Expected (lengths)");

        for (m, e) in moves.iter().zip(expected.iter()) {
            println!("Move: {:?}, Expected: {:?}", m, e);
            assert_eq!(m, e);
        }
    }
}

#[test]
fn sorted_moves_cover_check_evasions_too() {
    // After 1. e4 e5 2. f4 Qh4+ White is in check: the prioritised list must
    // still be exactly the legal (check-evading) moves.
    let mut board = Board::startpos();
    for mv in ["e2e4", "e7e5", "f2f4", "d8h4"] {
        board.play(mv.parse().unwrap());
    }
    assert!(!board.checkers().is_empty());
    let side = board.side_to_move();

    let mut expected = get_all_moves(&board, &side);
    let mut moves = get_sorted_moves(&board);

    expected.sort_by_key(sorter);
    moves.sort_by_key(sorter);

    assert_eq!(moves, expected);
}

#[test]
fn startpos_test_negamax_evaluator() {
    let evaluator = Negamax::new(2);

    let board = Board::startpos();
    let score_fn = PawnDifferenceScore::default();

    let eval = evaluator.eval_moves(board, &score_fn);

    let total_score: i64 = eval.into_iter().map(|(_mov, score)| score).sum();
    assert_eq!(total_score, 0);
}

#[test]
fn pawn_move_test_negamax() {
    let evaluator = Negamax::new(2);
    let score_fn = PawnDifferenceScore::default();

    let mut board = Board::startpos();

    let mov = Move {
        from: Square::D2,
        to: Square::D4,
        promotion: None,
    };

    board.play(mov);

    let eval = evaluator.eval_moves(board, &score_fn);

    println!("{:?}", eval);
    let mut nonzero_scores = eval
        .iter()
        .filter_map(|(_mov, score)| match score {
            0 => None,
            _ => Some(score),
        })
        .collect::<Vec<_>>();

    println!("Scores: {:?}", nonzero_scores);
    assert_eq!(nonzero_scores.len(), 5);

    // C7C5, E7E5, G7G5, H7H6 all present a pawn capture (one pawn = 10),
    // G8H6 presents a knight capture (30).
    let expected: Vec<&i64> = vec![&-30, &-10, &-10, &-10, &-10];

    nonzero_scores.sort();
    assert_eq!(nonzero_scores, expected);
}

#[test]
fn test_alphabetanegamax_vs_negamax() {
    let expected_evaluator = Negamax::new(4);
    let evaluator = AlphaBetaNegamax::new(4);
    let score_fn = PawnDifferenceScore::default();

    let mut board = Board::startpos();

    let mov = Move {
        from: Square::D2,
        to: Square::D4,
        promotion: None,
    };

    board.play(mov);

    let expected_eval = expected_evaluator.eval_moves(board.clone(), &score_fn);
    let eval = evaluator.eval_moves(board, &score_fn);

    assert_eq!(eval.len(), expected_eval.len(), "Eval vs Expected (lengths)");

    for (e, ee) in eval.iter().zip(expected_eval.iter()) {
        assert_eq!(e, ee, "Zipped evals should be equal");
    }
}

#[test]
fn checkmate_scores_the_decisive_minimum_at_any_depth() {
    // Fool's mate: the white mover is checkmated.
    let mut board = Board::startpos();
    for mv in ["f2f3", "e7e5", "g2g4", "d8h4"] {
        board.play(mv.parse().unwrap());
    }
    let score_fn = PawnDifferenceScore::default();
    // White to move; the sign flag for a White mover is false.
    for depth in 1..4 {
        assert_eq!(
            Negamax::negamax(&score_fn, &board, depth, false),
            -DECISIVE_SCORE
        );
    }
}

#[test]
fn stalemate_scores_exactly_zero_at_any_depth() {
    // Black to move, not in check, no legal replies.
    let board = Board::from_fen("7k/5Q2/6K1/8/8/8/8/8 b - - 0 1", false).unwrap();
    let score_fn = PawnDifferenceScore::default();
    for depth in 1..4 {
        assert_eq!(Negamax::negamax(&score_fn, &board, depth, true), 0);
        assert_eq!(Negamax::negamax(&score_fn, &board, depth, false), 0);
    }
}

#[test]
fn startpos_even_depth_alphabeta_scores_also_sum_to_zero() {
    let evaluator = AlphaBetaNegamax::new(2);
    let board = Board::startpos();
    let score_fn = PawnDifferenceScore::default();
    let eval = evaluator.eval_moves(board, &score_fn);
    let total_score: i64 = eval.into_iter().map(|(_mov, score)| score).sum();
    assert_eq!(total_score, 0);
}

#[test]
fn captures_come_before_quiet_moves() {
    // After 1. e4 d5 the only white capture is exd5; it must head the list
    // (no check evasions and no promotions exist here).
    let mut board = Board::startpos();
    board.play("e2e4".parse().unwrap());
    board.play("d7d5".parse().unwrap());
    let sorted = get_sorted_moves(&board);
    let exd5 = mv_of("e4d5".parse().unwrap());
    assert_eq!(sorted[0], exd5);
    // and it appears exactly once
    assert_eq!(sorted.iter().filter(|m| **m == exd5).count(), 1);
}

#[test]
fn promotions_come_before_captures_and_quiet_moves() {
    // White pawn on a7 about to promote; white king h2, black king h7.
    let board = Board::from_fen("8/P6k/8/8/8/8/7K/8 w - - 0 1", false).unwrap();
    let sorted = get_sorted_moves(&board);
    // Four promotion choices head the list, then the king's quiet moves.
    for m in sorted.iter().take(4) {
        assert!(m.promotion.is_some());
    }
    for m in sorted.iter().skip(4) {
        assert!(m.promotion.is_none());
    }
}

#[test]
fn naive_evaluator_scores_material_after_one_ply() {
    // After 1. d4 e5 2. a3 the pawn on d4 hangs: taking it is black's only
    // move with a positive one-ply score.
    let mut board = Board::startpos();
    for mv in ["d2d4", "e7e5", "a2a3"] {
        board.play(mv.parse().unwrap());
    }
    let evaluator = NaiveEvaluator::default();
    let score_fn = PawnDifferenceScore::default();
    let eval = evaluator.eval_moves(board.clone(), &score_fn);
    let exd4 = mv_of("e5d4".parse().unwrap());
    let entry = eval.iter().find(|(m, _)| *m == exd4).unwrap();
    assert_eq!(entry.1, 10);
    // The capture of the advanced pawn scores strictly better for black —
    // strictly worse for the side that advanced the pawn — than every
    // non-capturing reply.
    for (m, score) in eval.iter() {
        let target = Square::index(m.to as usize);
        let is_capture = board.color_on(target) == Some(Color::White);
        if !is_capture {
            assert!(*score < entry.1, "non-capture {:?} scored {}", m, score);
        }
    }
}
