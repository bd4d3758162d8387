use chess_engine::algorithm::chooser::{GreedyChooser, StochasticChooser};
use chess_engine::algorithm::eval::{AlphaBetaNegamax, NaiveEvaluator, Negamax};
use chess_engine::algorithm::score::PawnDifferenceScore;
use chess_engine::algorithm::{Chooser, ComputerPlayer, Evaluator, ScoreFunction};
use cozy_chess::{Board, Move, Square};

fn greedy_player(algorithm: Evaluator) -> ComputerPlayer {
    ComputerPlayer::new(
        algorithm,
        ScoreFunction::PawnDifference(PawnDifferenceScore::default()),
        Chooser::Greedy(GreedyChooser::default()),
    )
}

fn is_legal(board: &Board, from: u8, to: u8) -> bool {
    let mv = Move {
        from: Square::index(from as usize),
        to: Square::index(to as usize),
        promotion: None,
    };
    board.is_legal(mv)
}

#[test]
fn get_move_returns_a_legal_move_for_every_strategy() {
    let board = Board::startpos();
    for algorithm in [
        Evaluator::Naive(NaiveEvaluator::default()),
        Evaluator::Plain(Negamax::new(2)),
        Evaluator::AlphaBeta(AlphaBetaNegamax::new(2)),
    ] {
        let player = greedy_player(algorithm);
        let picked = player.get_move(board.clone()).expect("a move from startpos");
        assert!(picked.promotion.is_none());
        assert!(is_legal(&board, picked.from, picked.to));
    }
}

#[test]
fn get_move_returns_none_exactly_when_the_game_has_ended() {
    // Fool's mate: white has no legal move.
    let mut board = Board::startpos();
    for mv in ["f2f3", "e7e5", "g2g4", "d8h4"] {
        board.play(mv.parse().unwrap());
    }
    let player = greedy_player(Evaluator::AlphaBeta(AlphaBetaNegamax::new(3)));
    assert_eq!(player.get_move(board), None);

    // Stalemate: black has no legal move either.
    let board = Board::from_fen("7k/5Q2/6K1/8/8/8/8/8 b - - 0 1", false).unwrap();
    assert_eq!(player.get_move(board), None);
}

#[test]
fn greedy_get_move_is_deterministic_across_calls() {
    let mut board = Board::startpos();
    board.play("d2d4".parse().unwrap());
    let player = greedy_player(Evaluator::Plain(Negamax::new(2)));
    let first = player.get_move(board.clone());
    for _ in 0..5 {
        assert_eq!(player.get_move(board.clone()), first);
    }
}

#[test]
fn plain_and_pruned_strategies_pick_the_same_move() {
    let mut board = Board::startpos();
    for mv in ["d2d4", "e7e5"] {
        board.play(mv.parse().unwrap());
    }
    let plain = greedy_player(Evaluator::Plain(Negamax::new(3)));
    let pruned = greedy_player(Evaluator::AlphaBeta(AlphaBetaNegamax::new(3)));
    assert_eq!(plain.get_move(board.clone()), pruned.get_move(board));
}

#[test]
fn strategy_scorer_and_chooser_can_be_swapped_between_calls() {
    let board = Board::startpos();
    let mut player = greedy_player(Evaluator::Naive(NaiveEvaluator::default()));
    assert!(player.get_move(board.clone()).is_some());

    player.change_algorithm(Evaluator::AlphaBeta(AlphaBetaNegamax::new(2)));
    player.change_score_fn(ScoreFunction::PawnDifference(PawnDifferenceScore::default()));
    player.change_chooser(Chooser::Stochastic(StochasticChooser::default()));
    let picked = player.get_move(board.clone()).expect("a move from startpos");
    assert!(is_legal(&board, picked.from, picked.to));
}

#[test]
fn engine_finds_mate_in_one() {
    // Scholar's mate is on the board: Qxf7 is mate and must dominate any
    // material gain.
    let mut board = Board::startpos();
    for mv in ["e2e4", "e7e5", "f1c4", "b8c6", "d1h5", "g8f6"] {
        board.play(mv.parse().unwrap());
    }
    let player = greedy_player(Evaluator::AlphaBeta(AlphaBetaNegamax::new(2)));
    let picked = player.get_move(board.clone()).expect("a move");
    let qxf7: Move = "h5f7".parse().unwrap();
    assert_eq!(picked.from, qxf7.from as u8);
    assert_eq!(picked.to, qxf7.to as u8);
}

#[test]
fn engine_takes_a_hanging_queen() {
    // Black queen sits undefended on g5 with white to move and Bxg5
    // available; a two-ply search must grab material.
    let mut board = Board::startpos();
    for mv in ["d2d4", "e7e5", "d4e5", "d8g5", "e5e6", "g5c1"] {
        board.play(mv.parse().unwrap());
    }
    // After ...Qxc1 white recaptures: Qxc1 is the clear best move.
    let player = greedy_player(Evaluator::AlphaBeta(AlphaBetaNegamax::new(2)));
    let picked = player.get_move(board).expect("a move");
    let qxc1: Move = "d1c1".parse().unwrap();
    assert_eq!(picked.from, qxc1.from as u8);
    assert_eq!(picked.to, qxc1.to as u8);
}
