//! Search strategies. Each strategy evaluates, for every legal move of a
//! position, a score from the acting side's perspective: a one-ply
//! lookahead, a fixed-depth negamax, and the same negamax with alpha-beta
//! pruning, which returns the very same scores.
//!
//! Moves are visited in a prioritised order — check evasions, promotions,
//! captures, then quiet moves — which never changes any score, only how
//! early pruning finds strong bounds.

use vstd::prelude::*;
use vstd::seq_lib::lemma_multiset_commutative;

use crate::algorithm::score::{material, PawnDifferenceScore};
use crate::board::{
    after_play, checker_squares, checkers_of, color_on, color_on_of, game_status, legal_moves,
    moves_of, play_mv, side_of, side_to_move, status_of, GameState, Mv, Side,
};
use cozy_chess::Board;

verus! {

/// The magnitude of a decisive (checkmate) score, in tenths of a pawn:
/// large enough to dominate any material sum, which is at most 5760.
pub const DECISIVE_SCORE: i64 = 10000;

/// A sentinel strictly outside every reachable score, standing in for an
/// infinite window bound.
pub const SCORE_INF: i64 = 100000;

// ---------------------------------------------------------------------------
// Move prioritisation
// ---------------------------------------------------------------------------

/// The move starts from the square of a piece giving check, as the position
/// engine masks move generation by the checker squares.
pub open spec fn evades_check(b: Board, m: Mv) -> bool {
    checkers_of(b).contains(m.from)
}

/// The move promotes a pawn.
pub open spec fn is_promotion(m: Mv) -> bool {
    m.promotion is Some
}

/// The move lands on a square held by the opponent of the side to move.
pub open spec fn captures_enemy(b: Board, m: Mv) -> bool {
    match color_on_of(b, m.to) {
        Some(c) => c != side_of(b),
        None => false,
    }
}

pub open spec fn tier1_pred(b: Board) -> spec_fn(Mv) -> bool {
    |m: Mv| evades_check(b, m)
}

pub open spec fn tier2_pred(b: Board) -> spec_fn(Mv) -> bool {
    |m: Mv| !evades_check(b, m) && is_promotion(m)
}

pub open spec fn tier3_pred(b: Board) -> spec_fn(Mv) -> bool {
    |m: Mv| !evades_check(b, m) && !is_promotion(m) && captures_enemy(b, m)
}

pub open spec fn tier4_pred(b: Board) -> spec_fn(Mv) -> bool {
    |m: Mv| !evades_check(b, m) && !is_promotion(m) && !captures_enemy(b, m)
}

/// The legal moves of `b` in priority order: check evasions first, then
/// promotions, then captures, then the quiet rest, each tier keeping the
/// engine's generation order.
pub open spec fn sorted_moves_spec(b: Board) -> Seq<Mv> {
    let ms = moves_of(b);
    ms.filter(tier1_pred(b)) + ms.filter(tier2_pred(b)) + ms.filter(tier3_pred(b)) + ms.filter(
        tier4_pred(b),
    )
}

/// The four tiers partition any move sequence: their concatenation is a
/// permutation of it.
proof fn lemma_tier_partition(b: Board, s: Seq<Mv>)
    ensures
        (s.filter(tier1_pred(b)) + s.filter(tier2_pred(b)) + s.filter(tier3_pred(b)) + s.filter(
            tier4_pred(b),
        )).to_multiset() =~= s.to_multiset(),
    decreases s.len(),
{
    broadcast use vstd::seq_lib::group_to_multiset_ensures;
    broadcast use vstd::multiset::group_multiset_axioms;

    reveal(Seq::filter);
    let p1 = tier1_pred(b);
    let p2 = tier2_pred(b);
    let p3 = tier3_pred(b);
    let p4 = tier4_pred(b);
    if s.len() == 0 {
        assert(s.filter(p1) + s.filter(p2) + s.filter(p3) + s.filter(p4) =~= s);
    } else {
        let dl = s.drop_last();
        let x = s.last();
        lemma_tier_partition(b, dl);
        lemma_multiset_commutative(dl.filter(p1), dl.filter(p2));
        lemma_multiset_commutative(dl.filter(p1) + dl.filter(p2), dl.filter(p3));
        lemma_multiset_commutative(dl.filter(p1) + dl.filter(p2) + dl.filter(p3), dl.filter(p4));
        lemma_multiset_commutative(s.filter(p1), s.filter(p2));
        lemma_multiset_commutative(s.filter(p1) + s.filter(p2), s.filter(p3));
        lemma_multiset_commutative(s.filter(p1) + s.filter(p2) + s.filter(p3), s.filter(p4));
        assert(dl.push(x) =~= s);
        assert(s.to_multiset() =~= dl.to_multiset().insert(x));
    }
}

/// Move coverage: the prioritised order is a permutation of the position
/// engine's legal move list — every legal move appears exactly once, none
/// is duplicated, none is dropped.
pub proof fn lemma_move_coverage(b: Board)
    ensures
        sorted_moves_spec(b).to_multiset() == moves_of(b).to_multiset(),
        sorted_moves_spec(b).len() == moves_of(b).len(),
        forall|m: Mv| sorted_moves_spec(b).contains(m) <==> moves_of(b).contains(m),
{
    broadcast use vstd::seq_lib::group_to_multiset_ensures;

    lemma_tier_partition(b, moves_of(b));
    let s = sorted_moves_spec(b);
    let ms = moves_of(b);
    assert(s.to_multiset() =~= ms.to_multiset());
    assert(s.len() == s.to_multiset().len());
    assert(ms.len() == ms.to_multiset().len());
    assert forall|m: Mv| s.contains(m) <==> ms.contains(m) by {
        assert(s.contains(m) <==> s.to_multiset().count(m) > 0);
        assert(ms.contains(m) <==> ms.to_multiset().count(m) > 0);
    }
}

/// Whether `x` occurs in `v`.
fn contains_u8(v: &Vec<u8>, x: u8) -> (r: bool)
    ensures
        r == v@.contains(x),
{
    let mut i: usize = 0;
    while i < v.len()
        invariant
            i <= v@.len(),
            forall|j: int| 0 <= j < i ==> v@[j] != x,
        decreases v@.len() - i,
    {
        if v[i] == x {
            return true;
        }
        i = i + 1;
    }
    false
}

/// List the legal moves of `board` in priority order: check evasions,
/// promotions, captures, quiet moves.
pub fn get_sorted_moves(board: &Board) -> (r: Vec<Mv>)
    ensures
        r@ == sorted_moves_spec(*board),
{
    let all = legal_moves(board);
    let checkers = checker_squares(board);
    let side = side_to_move(board);
    let ghost ms = moves_of(*board);
    let mut evasions: Vec<Mv> = Vec::new();
    let mut promotions: Vec<Mv> = Vec::new();
    let mut captures: Vec<Mv> = Vec::new();
    let mut quiet: Vec<Mv> = Vec::new();
    let mut i: usize = 0;
    while i < all.len()
        invariant
            i <= all@.len(),
            all@ == ms,
            checkers@ == checkers_of(*board),
            side == side_of(*board),
            forall|j: int| 0 <= j < ms.len() ==> (#[trigger] ms[j]).from < 64 && ms[j].to < 64,
            evasions@ == ms.subrange(0, i as int).filter(tier1_pred(*board)),
            promotions@ == ms.subrange(0, i as int).filter(tier2_pred(*board)),
            captures@ == ms.subrange(0, i as int).filter(tier3_pred(*board)),
            quiet@ == ms.subrange(0, i as int).filter(tier4_pred(*board)),
        decreases all@.len() - i,
    {
        let m = all[i];
        proof {
            reveal(Seq::filter);
            assert(ms.subrange(0, i + 1).drop_last() =~= ms.subrange(0, i as int));
            assert(ms.subrange(0, i + 1).last() == m);
        }
        if contains_u8(&checkers, m.from) {
            evasions.push(m);
        } else if m.promotion.is_some() {
            promotions.push(m);
        } else {
            let is_capture = match color_on(board, m.to) {
                Some(c) => c != side,
                None => false,
            };
            proof {
                assert(is_capture == captures_enemy(*board, m));
            }
            if is_capture {
                captures.push(m);
            } else {
                quiet.push(m);
            }
        }
        i = i + 1;
    }
    proof {
        assert(ms.subrange(0, ms.len() as int) =~= ms);
    }
    let mut out = evasions;
    out.append(&mut promotions);
    out.append(&mut captures);
    out.append(&mut quiet);
    out
}

// ---------------------------------------------------------------------------
// The search value, as a mathematical function of the position
// ---------------------------------------------------------------------------

pub open spec fn max_i(a: int, b: int) -> int {
    if a >= b {
        a
    } else {
        b
    }
}

/// The value of a checkmated position: maximally bad for the side to move,
/// expressed from White's perspective and then negated when `negative` asks
/// for the opposite perspective.
pub open spec fn won_score(side: Side, negative: bool) -> int {
    (if negative {
        -1int
    } else {
        1int
    }) * (if side is White {
        -(DECISIVE_SCORE as int)
    } else {
        DECISIVE_SCORE as int
    })
}

/// The fixed-depth negamax value of `b`. At depth 0 it is the material
/// score, negated when `negative` holds; a drawn position is 0; a checkmated
/// position scores the decisive magnitude against its mover; otherwise it is
/// the best reply value over the legal moves.
pub open spec fn negamax_spec(b: Board, depth: nat, negative: bool) -> int
    decreases depth, moves_of(b).len() + 1,
{
    if depth == 0 {
        if negative {
            -material(b)
        } else {
            material(b)
        }
    } else if status_of(b) is Drawn {
        0
    } else if status_of(b) is Won {
        won_score(side_of(b), negative)
    } else {
        best_reply_value(b, moves_of(b), (depth - 1) as nat, negative)
    }
}

/// The negamax value of playing `m` from `b` and searching `depth` further
/// plies: the negation of the opponent's value of the resulting position.
pub open spec fn reply_value(b: Board, m: Mv, depth: nat, negative: bool) -> int {
    -negamax_spec(after_play(b, m), depth, !negative)
}

/// The best reply value among the moves `ms` of `b`: the maximum of the
/// negated values of the resulting positions, searched `depth` further
/// plies. Meaningful only for nonempty `ms`.
pub open spec fn best_reply_value(b: Board, ms: Seq<Mv>, depth: nat, negative: bool) -> int
    decreases depth + 1, ms.len(),
{
    if ms.len() <= 1 {
        -negamax_spec(after_play(b, ms.last()), depth, !negative)
    } else {
        max_i(
            best_reply_value(b, ms.drop_last(), depth, negative),
            -negamax_spec(after_play(b, ms.last()), depth, !negative),
        )
    }
}

/// The best reply value of a nonempty move list is attained by one of its
/// moves and bounds the value of every one of them.
pub proof fn lemma_brv_is_max(b: Board, ms: Seq<Mv>, depth: nat, negative: bool)
    requires
        ms.len() > 0,
    ensures
        exists|i: int|
            0 <= i < ms.len() && best_reply_value(b, ms, depth, negative) == reply_value(
                b,
                ms[i],
                depth,
                negative,
            ),
        forall|i: int|
            0 <= i < ms.len() ==> reply_value(b, ms[i], depth, negative) <= best_reply_value(
                b,
                ms,
                depth,
                negative,
            ),
    decreases ms.len(),
{
    let v = best_reply_value(b, ms, depth, negative);
    if ms.len() == 1 {
        assert(v == reply_value(b, ms[0], depth, negative));
    } else {
        let dl = ms.drop_last();
        lemma_brv_is_max(b, dl, depth, negative);
        let dv = best_reply_value(b, dl, depth, negative);
        let lv = reply_value(b, ms.last(), depth, negative);
        assert(v == max_i(dv, lv));
        if lv >= dv {
            assert(ms[ms.len() - 1] == ms.last());
            assert(v == reply_value(b, ms[ms.len() - 1], depth, negative));
        } else {
            let j = choose|j: int|
                0 <= j < dl.len() && dv == reply_value(b, dl[j], depth, negative);
            assert(dl[j] == ms[j]);
            assert(v == reply_value(b, ms[j], depth, negative));
        }
        assert forall|i: int|
            0 <= i < ms.len() implies reply_value(b, ms[i], depth, negative) <= v by {
            if i < ms.len() - 1 {
                assert(dl[i] == ms[i]);
                assert(reply_value(b, dl[i], depth, negative) <= dv);
            } else {
                assert(ms[i] == ms.last());
            }
        }
    }
}

/// Two nonempty move lists with the same members have the same best reply
/// value: move order and repetition never change the search value.
pub proof fn lemma_brv_same_elements(b: Board, s: Seq<Mv>, t: Seq<Mv>, depth: nat, negative: bool)
    requires
        s.len() > 0,
        t.len() > 0,
        forall|m: Mv| s.contains(m) <==> t.contains(m),
    ensures
        best_reply_value(b, s, depth, negative) == best_reply_value(b, t, depth, negative),
{
    lemma_brv_is_max(b, s, depth, negative);
    lemma_brv_is_max(b, t, depth, negative);
    let vs = best_reply_value(b, s, depth, negative);
    let vt = best_reply_value(b, t, depth, negative);
    assert(vs <= vt) by {
        let i = choose|i: int| 0 <= i < s.len() && vs == reply_value(b, s[i], depth, negative);
        assert(s.contains(s[i]));
        assert(t.contains(s[i]));
        let j = choose|j: int| 0 <= j < t.len() && t[j] == s[i];
        assert(reply_value(b, t[j], depth, negative) <= vt);
    }
    assert(vt <= vs) by {
        let i = choose|i: int| 0 <= i < t.len() && vt == reply_value(b, t[i], depth, negative);
        assert(t.contains(t[i]));
        assert(s.contains(t[i]));
        let j = choose|j: int| 0 <= j < s.len() && s[j] == t[i];
        assert(reply_value(b, s[j], depth, negative) <= vs);
    }
}

/// When the sign convention is threaded so that `negative` holds exactly
/// when Black is to move, a position whose mover is checkmated scores the
/// decisive minimum for that mover.
pub proof fn lemma_won_score_mover_minimum(side: Side, negative: bool)
    requires
        negative == (side is Black),
    ensures
        won_score(side, negative) == -(DECISIVE_SCORE as int),
{
    if negative {
        assert(won_score(side, negative) == (-1int) * (DECISIVE_SCORE as int));
    } else {
        assert(won_score(side, negative) == (1int) * (-(DECISIVE_SCORE as int)));
    }
}

/// The sign adjustment the searches seed for the first recursive ply: after
/// White's move the scorer's White-perspective value must be negated for the
/// replying side.
pub open spec fn root_negative(side: Side) -> bool {
    side is White
}

/// The score a depth-limited search reports for move `m` of `b`: the
/// negation of the value of the resulting position, searched `depth` further
/// plies with the sign flag seeded for the first reply. The score is from
/// the perspective of the side making `m`.
pub open spec fn root_reply_value(b: Board, m: Mv, depth: nat) -> int {
    -negamax_spec(after_play(b, m), depth, root_negative(side_of(b)))
}

// ---------------------------------------------------------------------------
// One-ply lookahead
// ---------------------------------------------------------------------------

/// The one-ply value of playing `m` from `b`: the material score of the
/// resulting position, turned to the perspective of the side making `m`.
pub open spec fn naive_value(b: Board, m: Mv) -> int {
    material(after_play(b, m)) * (if side_of(b) is White {
        1int
    } else {
        -1int
    })
}

/// The one-ply lookahead strategy: apply each legal move and score the
/// resulting position, with no recursion.
#[derive(Clone, Copy, Debug, Default)]
pub struct NaiveEvaluator;

impl NaiveEvaluator {
    /// Score every legal move of `board` by the material balance after it,
    /// from the perspective of the side to move in `board`.
    pub fn eval_moves(&self, board: Board, score_fn: &PawnDifferenceScore) -> (r: Vec<(Mv, i64)>)
        ensures
            r@.len() == sorted_moves_spec(board).len(),
            forall|i: int|
                0 <= i < r@.len() ==> (#[trigger] r@[i]).0 == sorted_moves_spec(board)[i]
                    && r@[i].1 as int == naive_value(board, sorted_moves_spec(board)[i]),
    {
        let side = side_to_move(&board);
        let sorted = get_sorted_moves(&board);
        proof {
            lemma_move_coverage(board);
        }
        let ghost ss = sorted_moves_spec(board);
        let mut out: Vec<(Mv, i64)> = Vec::new();
        let mut i: usize = 0;
        while i < sorted.len()
            invariant
                i <= ss.len(),
                sorted@ == ss,
                side == side_of(board),
                forall|m: Mv| ss.contains(m) <==> moves_of(board).contains(m),
                out@.len() == i,
                forall|j: int|
                    0 <= j < i ==> (#[trigger] out@[j]).0 == ss[j] && out@[j].1 as int
                        == naive_value(board, ss[j]),
            decreases ss.len() - i,
        {
            let m = sorted[i];
            proof {
                assert(ss.contains(ss[i as int]));
            }
            let child = play_mv(&board, &m);
            let s = score_fn.score(&child);
            let val: i64 = match side {
                Side::White => s,
                Side::Black => -s,
            };
            proof {
                if side_of(board) is White {
                    assert(naive_value(board, m) == material(after_play(board, m)) * 1int);
                    assert(naive_value(board, m) == material(after_play(board, m)));
                } else {
                    assert(naive_value(board, m) == material(after_play(board, m)) * -1int);
                    assert(naive_value(board, m) == -material(after_play(board, m)));
                }
                assert(val as int == naive_value(board, m));
            }
            out.push((m, val));
            i = i + 1;
        }
        out
    }
}

// ---------------------------------------------------------------------------
// Fixed-depth negamax
// ---------------------------------------------------------------------------

/// Full-width fixed-depth negamax search: every node at every depth is
/// visited.
#[derive(Clone, Copy, Debug)]
pub struct Negamax {
    depth: usize,
}

impl Default for Negamax {
    fn default() -> (r: Self)
        ensures
            r.search_depth() == 2,
            r.wf(),
    {
        Negamax { depth: 2 }
    }
}

impl Negamax {
    /// The configured search depth, in plies.
    pub closed spec fn search_depth(self) -> int {
        self.depth as int
    }

    /// A usable search configuration looks at least one ply ahead.
    pub open spec fn wf(self) -> bool {
        self.search_depth() >= 1
    }

    pub fn new(depth: usize) -> (r: Self)
        requires
            depth >= 1,
        ensures
            r.search_depth() == depth as int,
            r.wf(),
    {
        Negamax { depth }
    }

    /// The negamax value of `board`, searching `depth` plies: exactly
    /// `negamax_spec`. A position with no legal replies scores the decisive
    /// minimum for its mover when the mover is in check, and exactly 0 when
    /// it is not.
    pub fn negamax(
        score_fn: &PawnDifferenceScore,
        board: &Board,
        depth: usize,
        negative: bool,
    ) -> (r: i64)
        ensures
            r as int == negamax_spec(*board, depth as nat, negative),
            -DECISIVE_SCORE <= r <= DECISIVE_SCORE,
            depth >= 1 && moves_of(*board).len() == 0 && checkers_of(*board).len() > 0 && negative
                == (side_of(*board) is Black) ==> r == -DECISIVE_SCORE,
            depth >= 1 && moves_of(*board).len() == 0 && checkers_of(*board).len() == 0 ==> r == 0,
        decreases depth,
    {
        if depth == 0 {
            let s = score_fn.score(board);
            if negative {
                -s
            } else {
                s
            }
        } else {
            match game_status(board) {
                GameState::Drawn => 0,
                GameState::Won => {
                    let side = side_to_move(board);
                    let magnitude: i64 = match side {
                        Side::White => -DECISIVE_SCORE,
                        Side::Black => DECISIVE_SCORE,
                    };
                    if negative {
                        -magnitude
                    } else {
                        magnitude
                    }
                },
                GameState::Ongoing => {
                    let sorted = get_sorted_moves(board);
                    proof {
                        lemma_move_coverage(*board);
                    }
                    let ghost ss = sorted_moves_spec(*board);
                    let ghost cd = (depth - 1) as nat;
                    let mut best: i64 = -SCORE_INF;
                    let mut i: usize = 0;
                    while i < sorted.len()
                        invariant
                            i <= ss.len(),
                            sorted@ == ss,
                            ss.len() > 0,
                            depth >= 1,
                            cd == (depth - 1) as nat,
                            forall|m: Mv| ss.contains(m) <==> moves_of(*board).contains(m),
                            i == 0 ==> best == -SCORE_INF,
                            i >= 1 ==> best as int == best_reply_value(
                                *board,
                                ss.subrange(0, i as int),
                                cd,
                                negative,
                            ),
                            i >= 1 ==> -DECISIVE_SCORE <= best <= DECISIVE_SCORE,
                        decreases ss.len() - i,
                    {
                        let m = sorted[i];
                        proof {
                            assert(ss.contains(ss[i as int]));
                        }
                        let child = play_mv(board, &m);
                        let cv = Self::negamax(score_fn, &child, depth - 1, !negative);
                        let nb = -cv;
                        proof {
                            assert(ss.subrange(0, i + 1).drop_last() =~= ss.subrange(0, i as int));
                            assert(ss.subrange(0, i + 1).last() == m);
                            assert(nb as int == reply_value(*board, m, cd, negative));
                        }
                        if nb > best {
                            best = nb;
                        }
                        i = i + 1;
                    }
                    proof {
                        assert(ss.subrange(0, ss.len() as int) =~= ss);
                        lemma_brv_same_elements(*board, ss, moves_of(*board), cd, negative);
                    }
                    best
                },
            }
        }
    }

    /// Score every legal move of `board` by a negamax search of the
    /// configured depth: each move's score is the negation of the reply's
    /// value one ply deeper, so it is from the perspective of the side
    /// making the move.
    pub fn eval_moves(&self, board: Board, score_fn: &PawnDifferenceScore) -> (r: Vec<(Mv, i64)>)
        requires
            self.wf(),
        ensures
            r@.len() == sorted_moves_spec(board).len(),
            forall|i: int|
                0 <= i < r@.len() ==> (#[trigger] r@[i]).0 == sorted_moves_spec(board)[i]
                    && r@[i].1 as int == root_reply_value(
                    board,
                    sorted_moves_spec(board)[i],
                    (self.search_depth() - 1) as nat,
                ) && -DECISIVE_SCORE <= r@[i].1 <= DECISIVE_SCORE,
    {
        let side = side_to_move(&board);
        let negative = match side {
            Side::White => true,
            Side::Black => false,
        };
        let sorted = get_sorted_moves(&board);
        proof {
            lemma_move_coverage(board);
        }
        let ghost ss = sorted_moves_spec(board);
        let ghost cd = (self.search_depth() - 1) as nat;
        let mut out: Vec<(Mv, i64)> = Vec::new();
        let mut i: usize = 0;
        while i < sorted.len()
            invariant
                i <= ss.len(),
                sorted@ == ss,
                side == side_of(board),
                negative == root_negative(side_of(board)),
                self.wf(),
                cd == (self.search_depth() - 1) as nat,
                self.depth >= 1,
                forall|m: Mv| ss.contains(m) <==> moves_of(board).contains(m),
                out@.len() == i,
                forall|j: int|
                    0 <= j < i ==> (#[trigger] out@[j]).0 == ss[j] && out@[j].1 as int
                        == root_reply_value(board, ss[j], cd) && -DECISIVE_SCORE <= out@[j].1
                        <= DECISIVE_SCORE,
            decreases ss.len() - i,
        {
            let m = sorted[i];
            proof {
                assert(ss.contains(ss[i as int]));
            }
            let child = play_mv(&board, &m);
            let cv = Self::negamax(score_fn, &child, self.depth - 1, negative);
            out.push((m, -cv));
            i = i + 1;
        }
        out
    }
}

// ---------------------------------------------------------------------------
// Negamax with alpha-beta pruning
// ---------------------------------------------------------------------------

/// Fixed-depth negamax with alpha-beta pruning: it returns the very same
/// scores as the plain search while skipping replies that cannot change the
/// value the caller will accept.
#[derive(Clone, Copy, Debug)]
pub struct AlphaBetaNegamax {
    depth: usize,
}

impl Default for AlphaBetaNegamax {
    fn default() -> (r: Self)
        ensures
            r.search_depth() == 2,
            r.wf(),
    {
        AlphaBetaNegamax { depth: 2 }
    }
}

impl AlphaBetaNegamax {
    /// The configured search depth, in plies.
    pub closed spec fn search_depth(self) -> int {
        self.depth as int
    }

    /// A usable search configuration looks at least one ply ahead.
    pub open spec fn wf(self) -> bool {
        self.search_depth() >= 1
    }

    pub fn new(depth: usize) -> (r: Self)
        requires
            depth >= 1,
        ensures
            r.search_depth() == depth as int,
            r.wf(),
    {
        AlphaBetaNegamax { depth }
    }

    /// Fail-soft alpha-beta search within the window `(alpha, beta)`. The
    /// result `r` relates to the plain negamax value `v` of the position as
    /// pruning theory promises: a result inside the window is exactly `v`, a
    /// result at or below `alpha` is an upper bound on `v`, and a result at
    /// or above `beta` is a lower bound on `v`. With the full window the
    /// result therefore equals the plain search's value.
    #[verifier::rlimit(30)]
    pub fn negamax(
        score_fn: &PawnDifferenceScore,
        board: &Board,
        depth: usize,
        alpha: i64,
        beta: i64,
        negative: bool,
    ) -> (r: i64)
        requires
            -SCORE_INF <= alpha < beta <= SCORE_INF,
        ensures
            -DECISIVE_SCORE <= r <= DECISIVE_SCORE,
            r <= alpha ==> negamax_spec(*board, depth as nat, negative) <= r as int,
            alpha < r < beta ==> r as int == negamax_spec(*board, depth as nat, negative),
            r >= beta ==> negamax_spec(*board, depth as nat, negative) >= r as int,
            depth >= 1 && moves_of(*board).len() == 0 && checkers_of(*board).len() > 0 && negative
                == (side_of(*board) is Black) ==> r == -DECISIVE_SCORE,
            depth >= 1 && moves_of(*board).len() == 0 && checkers_of(*board).len() == 0 ==> r == 0,
        decreases depth,
    {
        if depth == 0 {
            let s = score_fn.score(board);
            let ret: i64 = if negative {
                -s
            } else {
                s
            };
            proof {
                assert(ret as int == negamax_spec(*board, depth as nat, negative));
            }
            ret
        } else {
            match game_status(board) {
                GameState::Drawn => {
                    proof {
                        assert(0int == negamax_spec(*board, depth as nat, negative));
                    }
                    0
                },
                GameState::Won => {
                    let side = side_to_move(board);
                    let magnitude: i64 = match side {
                        Side::White => -DECISIVE_SCORE,
                        Side::Black => DECISIVE_SCORE,
                    };
                    let ret: i64 = if negative {
                        -magnitude
                    } else {
                        magnitude
                    };
                    proof {
                        let sd = side_of(*board);
                        if negative {
                            assert(won_score(sd, negative) == (-1int) * (if sd is White {
                                -(DECISIVE_SCORE as int)
                            } else {
                                DECISIVE_SCORE as int
                            }));
                        } else {
                            assert(won_score(sd, negative) == (1int) * (if sd is White {
                                -(DECISIVE_SCORE as int)
                            } else {
                                DECISIVE_SCORE as int
                            }));
                        }
                        assert(ret as int == won_score(sd, negative));
                        assert(ret as int == negamax_spec(*board, depth as nat, negative));
                    }
                    ret
                },
                GameState::Ongoing => {
                    let sorted = get_sorted_moves(board);
                    proof {
                        lemma_move_coverage(*board);
                    }
                    let ghost ss = sorted_moves_spec(*board);
                    let ghost cd = (depth - 1) as nat;
                    let ghost v = negamax_spec(*board, depth as nat, negative);
                    proof {
                        lemma_brv_same_elements(*board, ss, moves_of(*board), cd, negative);
                        assert(v == best_reply_value(*board, ss, cd, negative));
                    }
                    let mut best: i64 = -SCORE_INF;
                    let mut al: i64 = alpha;
                    let mut i: usize = 0;
                    while i < sorted.len() && al < beta
                        invariant
                            i <= ss.len(),
                            sorted@ == ss,
                            ss.len() > 0,
                            depth >= 1,
                            cd == (depth - 1) as nat,
                            -SCORE_INF <= alpha < beta <= SCORE_INF,
                            v == best_reply_value(*board, ss, cd, negative),
                            v == negamax_spec(*board, depth as nat, negative),
                            forall|m: Mv| ss.contains(m) <==> moves_of(*board).contains(m),
                            alpha <= al <= SCORE_INF,
                            i == 0 ==> best == -SCORE_INF && al == alpha,
                            i >= 1 ==> -DECISIVE_SCORE <= best <= DECISIVE_SCORE,
                            i >= 1 ==> al as int == max_i(alpha as int, best as int),
                            i >= 1 ==> best as int <= max_i(
                                alpha as int,
                                best_reply_value(*board, ss.subrange(0, i as int), cd, negative),
                            ),
                            i >= 1 && best < beta ==> best_reply_value(
                                *board,
                                ss.subrange(0, i as int),
                                cd,
                                negative,
                            ) <= best as int,
                        decreases ss.len() - i,
                    {
                        let m = sorted[i];
                        proof {
                            assert(ss.contains(ss[i as int]));
                        }
                        let child = play_mv(board, &m);
                        let rc = Self::negamax(score_fn, &child, depth - 1, -beta, -al, !negative);
                        let ghost best_prev = best as int;
                        let ghost al_prev = al as int;
                        let ghost m_prev: int = best_reply_value(
                            *board,
                            ss.subrange(0, i as int),
                            cd,
                            negative,
                        );
                        let ghost vc = negamax_spec(after_play(*board, m), cd, !negative);
                        let ghost fi = reply_value(*board, m, cd, negative);
                        let nb = -rc;
                        if nb > best {
                            best = nb;
                        }
                        if best > al {
                            al = best;
                        }
                        proof {
                            let m_new = best_reply_value(
                                *board,
                                ss.subrange(0, i + 1),
                                cd,
                                negative,
                            );
                            assert(ss.subrange(0, i + 1).drop_last() =~= ss.subrange(0, i as int));
                            assert(ss.subrange(0, i + 1).last() == m);
                            assert(fi == -vc);
                            if i >= 1 {
                                assert(ss.subrange(0, i + 1).len() >= 2);
                                assert(m_new == max_i(m_prev, fi));
                            } else {
                                assert(ss.subrange(0, 1).len() == 1);
                                assert(m_new == fi);
                            }
                            // How the child's fail-soft result relates to its
                            // true value decides how `best` tracks the true
                            // prefix maximum.
                            if rc <= -beta {
                                // fail low for the child: its result is an
                                // upper bound on vc, so nb undercuts fi, and
                                // nb is at least beta.
                                assert(vc <= rc as int);
                                assert(fi >= nb as int);
                                assert(nb as int >= beta);
                            } else if rc < -al_prev {
                                // exact: the child's result is its value.
                                assert(rc as int == vc);
                                assert(fi == nb as int);
                            } else {
                                // fail high for the child: its result is a
                                // lower bound on vc, so nb overshoots fi but
                                // stays at or below the alpha handed down.
                                assert(vc >= rc as int);
                                assert(fi <= nb as int);
                                assert(nb as int <= al_prev);
                            }
                            assert(best as int == max_i(best_prev, nb as int));
                            assert(al as int == max_i(alpha as int, best as int));
                        }
                        i = i + 1;
                    }
                    proof {
                        assert(i >= 1);
                        assert(ss.subrange(0, ss.len() as int) =~= ss);
                        let mi = best_reply_value(*board, ss.subrange(0, i as int), cd, negative);
                        if al >= beta || best >= beta {
                            // A cutoff: best reached beta, and by the upper
                            // invariant it cannot exceed the true maximum of
                            // the explored prefix, which the full value
                            // dominates.
                            assert(best as int >= beta);
                            assert(best as int <= mi);
                            lemma_brv_is_max(*board, ss.subrange(0, i as int), cd, negative);
                            let j = choose|j: int|
                                0 <= j < i && mi == reply_value(
                                    *board,
                                    ss.subrange(0, i as int)[j],
                                    cd,
                                    negative,
                                );
                            assert(ss.subrange(0, i as int)[j] == ss[j]);
                            lemma_brv_is_max(*board, ss, cd, negative);
                            assert(reply_value(*board, ss[j], cd, negative) <= v);
                            assert(v >= best as int);
                        } else {
                            // The whole move list was explored with the
                            // window open: best is the true value when it
                            // rose above alpha, and an upper bound on it
                            // otherwise.
                            assert(i == ss.len());
                            assert(mi == v);
                            assert(mi <= best as int);
                            assert(best as int <= max_i(alpha as int, v));
                        }
                    }
                    best
                },
            }
        }
    }

    /// Score every legal move of `board` by an alpha-beta search of the
    /// configured depth, seeding the full window: the scores equal the plain
    /// negamax search's scores, move for move.
    pub fn eval_moves(&self, board: Board, score_fn: &PawnDifferenceScore) -> (r: Vec<(Mv, i64)>)
        requires
            self.wf(),
        ensures
            r@.len() == sorted_moves_spec(board).len(),
            forall|i: int|
                0 <= i < r@.len() ==> (#[trigger] r@[i]).0 == sorted_moves_spec(board)[i]
                    && r@[i].1 as int == root_reply_value(
                    board,
                    sorted_moves_spec(board)[i],
                    (self.search_depth() - 1) as nat,
                ) && -DECISIVE_SCORE <= r@[i].1 <= DECISIVE_SCORE,
    {
        let side = side_to_move(&board);
        let negative = match side {
            Side::White => true,
            Side::Black => false,
        };
        let sorted = get_sorted_moves(&board);
        proof {
            lemma_move_coverage(board);
        }
        let ghost ss = sorted_moves_spec(board);
        let ghost cd = (self.search_depth() - 1) as nat;
        let mut out: Vec<(Mv, i64)> = Vec::new();
        let mut i: usize = 0;
        while i < sorted.len()
            invariant
                i <= ss.len(),
                sorted@ == ss,
                side == side_of(board),
                negative == root_negative(side_of(board)),
                self.wf(),
                cd == (self.search_depth() - 1) as nat,
                self.depth >= 1,
                forall|m: Mv| ss.contains(m) <==> moves_of(board).contains(m),
                out@.len() == i,
                forall|j: int|
                    0 <= j < i ==> (#[trigger] out@[j]).0 == ss[j] && out@[j].1 as int
                        == root_reply_value(board, ss[j], cd) && -DECISIVE_SCORE <= out@[j].1
                        <= DECISIVE_SCORE,
            decreases ss.len() - i,
        {
            let m = sorted[i];
            proof {
                assert(ss.contains(ss[i as int]));
            }
            let child = play_mv(&board, &m);
            let cv = Self::negamax(
                score_fn,
                &child,
                self.depth - 1,
                -SCORE_INF,
                SCORE_INF,
                negative,
            );
            out.push((m, -cv));
            i = i + 1;
        }
        out
    }
}

} // verus!
