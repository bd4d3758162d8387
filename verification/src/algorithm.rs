//! The decision engine: one search strategy, one position scorer and one
//! move selector, composed behind a single `get_move` entry point. Each of
//! the three parts can be swapped independently between calls.

pub mod chooser;
pub mod eval;
pub mod score;

use vstd::prelude::*;

use crate::algorithm::chooser::{
    first_argmax, GreedyChooser, StochasticChooser,
};
use crate::algorithm::eval::{
    naive_value, root_reply_value, sorted_moves_spec, AlphaBetaNegamax, NaiveEvaluator, Negamax,
};
use crate::algorithm::score::PawnDifferenceScore;
use crate::board::{moves_of, Mv};
use cozy_chess::Board;

verus! {

/// A search strategy, selected and swapped at runtime.
#[derive(Clone, Copy, Debug)]
pub enum Evaluator {
    Naive(NaiveEvaluator),
    Plain(Negamax),
    AlphaBeta(AlphaBetaNegamax),
}

impl Evaluator {
    /// A usable strategy: a searching one looks at least one ply ahead.
    pub open spec fn wf(self) -> bool {
        match self {
            Evaluator::Naive(_) => true,
            Evaluator::Plain(n) => n.wf(),
            Evaluator::AlphaBeta(n) => n.wf(),
        }
    }
}

/// A scoring policy, selected and swapped at runtime.
#[derive(Clone, Copy, Debug)]
pub enum ScoreFunction {
    PawnDifference(PawnDifferenceScore),
}

/// A move selector, selected and swapped at runtime.
#[derive(Clone, Copy, Debug)]
pub enum Chooser {
    Greedy(GreedyChooser),
    Stochastic(StochasticChooser),
}

/// The score strategy `e` reports for the `i`-th prioritised move of `b`.
pub open spec fn engine_score(e: Evaluator, b: Board, i: int) -> int {
    match e {
        Evaluator::Naive(_) => naive_value(b, sorted_moves_spec(b)[i]),
        Evaluator::Plain(n) => root_reply_value(
            b,
            sorted_moves_spec(b)[i],
            (n.search_depth() - 1) as nat,
        ),
        Evaluator::AlphaBeta(n) => root_reply_value(
            b,
            sorted_moves_spec(b)[i],
            (n.search_depth() - 1) as nat,
        ),
    }
}

/// The weights the engine hands to the selector: one score per prioritised
/// move.
pub open spec fn engine_weights(e: Evaluator, b: Board) -> Seq<i64> {
    Seq::new(sorted_moves_spec(b).len(), |i: int| engine_score(e, b, i) as i64)
}

/// The decision engine: evaluates the legal moves with its strategy and
/// scorer, then lets its selector pick one.
#[derive(Clone, Copy, Debug)]
pub struct ComputerPlayer {
    algorithm: Evaluator,
    score_fn: ScoreFunction,
    chooser: Chooser,
}

impl ComputerPlayer {
    pub closed spec fn algorithm_spec(self) -> Evaluator {
        self.algorithm
    }

    pub closed spec fn score_fn_spec(self) -> ScoreFunction {
        self.score_fn
    }

    pub closed spec fn chooser_spec(self) -> Chooser {
        self.chooser
    }

    /// A usable engine holds a usable strategy.
    pub open spec fn wf(self) -> bool {
        self.algorithm_spec().wf()
    }

    pub fn new(algorithm: Evaluator, score_fn: ScoreFunction, chooser: Chooser) -> (r: Self)
        ensures
            r.algorithm_spec() == algorithm,
            r.score_fn_spec() == score_fn,
            r.chooser_spec() == chooser,
    {
        ComputerPlayer { algorithm, score_fn, chooser }
    }

    /// Pick a move for `board`: evaluate every legal move with the current
    /// strategy, then select. Returns `None` exactly when the position has
    /// no legal move (the game has ended). With the greedy selector the
    /// result is the best-scored move, earliest on ties; with the stochastic
    /// selector it is one of the legal moves.
    pub fn get_move(&self, board: Board) -> (r: Option<Mv>)
        requires
            self.wf(),
        ensures
            r is Some <==> moves_of(board).len() > 0,
            moves_of(board).len() > 0 && self.chooser_spec() is Greedy ==> r == Some(
                sorted_moves_spec(board)[first_argmax(
                    engine_weights(self.algorithm_spec(), board),
                )],
            ),
            moves_of(board).len() > 0 ==> exists|k: int|
                0 <= k < sorted_moves_spec(board).len() && r == Some(sorted_moves_spec(board)[k]),
    {
        let ghost e = self.algorithm_spec();
        let eval = match (&self.algorithm, &self.score_fn) {
            (Evaluator::Naive(ev), ScoreFunction::PawnDifference(s)) => ev.eval_moves(board, s),
            (Evaluator::Plain(ev), ScoreFunction::PawnDifference(s)) => ev.eval_moves(board, s),
            (Evaluator::AlphaBeta(ev), ScoreFunction::PawnDifference(s)) => ev.eval_moves(
                board,
                s,
            ),
        };
        proof {
            crate::algorithm::eval::lemma_move_coverage(board);
            assert(forall|j: int|
                0 <= j < eval@.len() ==> (#[trigger] eval@[j]).1 as int == engine_score(
                    e,
                    board,
                    j,
                ));
        }
        let mut moves: Vec<Mv> = Vec::new();
        let mut weights: Vec<i64> = Vec::new();
        let mut i: usize = 0;
        while i < eval.len()
            invariant
                i <= eval@.len(),
                moves@.len() == i,
                weights@.len() == i,
                forall|j: int|
                    0 <= j < i ==> moves@[j] == (#[trigger] eval@[j]).0 && weights@[j]
                        == eval@[j].1,
            decreases eval@.len() - i,
        {
            let (mv, score) = eval[i];
            moves.push(mv);
            weights.push(score);
            i = i + 1;
        }
        proof {
            assert forall|j: int| 0 <= j < moves@.len() implies moves@[j] == sorted_moves_spec(
                board,
            )[j] by {
                assert(moves@[j] == (eval@[j]).0);
                assert((eval@[j]).0 == sorted_moves_spec(board)[j]);
            }
            assert(moves@ =~= sorted_moves_spec(board));
            assert forall|j: int| 0 <= j < weights@.len() implies weights@[j] == engine_weights(
                e,
                board,
            )[j] by {
                assert(eval@[j].1 as int == engine_score(e, board, j));
            }
            assert(weights@ =~= engine_weights(e, board));
        }
        let picked = match &self.chooser {
            Chooser::Greedy(c) => c.pick(&moves, &weights),
            Chooser::Stochastic(c) => c.pick(&moves, &weights),
        };
        proof {
            if moves@.len() > 0 {
                match self.chooser_spec() {
                    Chooser::Greedy(_) => {
                        crate::algorithm::chooser::lemma_first_argmax(weights@);
                        let k = first_argmax(weights@);
                        assert(picked == Some(moves@[k]));
                        assert(0 <= k < sorted_moves_spec(board).len() && picked == Some(
                            sorted_moves_spec(board)[k],
                        ));
                    },
                    Chooser::Stochastic(_) => {
                        let k = choose|k: int|
                            0 <= k < moves@.len() && picked == Some(moves@[k]);
                        assert(0 <= k < sorted_moves_spec(board).len() && picked == Some(
                            sorted_moves_spec(board)[k],
                        ));
                    },
                }
            }
        }
        picked
    }

    pub fn change_algorithm(&mut self, algorithm: Evaluator)
        ensures
            final(self).algorithm_spec() == algorithm,
            final(self).score_fn_spec() == old(self).score_fn_spec(),
            final(self).chooser_spec() == old(self).chooser_spec(),
    {
        self.algorithm = algorithm;
    }

    pub fn change_score_fn(&mut self, score_fn: ScoreFunction)
        ensures
            final(self).score_fn_spec() == score_fn,
            final(self).algorithm_spec() == old(self).algorithm_spec(),
            final(self).chooser_spec() == old(self).chooser_spec(),
    {
        self.score_fn = score_fn;
    }

    pub fn change_chooser(&mut self, chooser: Chooser)
        ensures
            final(self).chooser_spec() == chooser,
            final(self).algorithm_spec() == old(self).algorithm_spec(),
            final(self).score_fn_spec() == old(self).score_fn_spec(),
    {
        self.chooser = chooser;
    }
}

} // verus!
