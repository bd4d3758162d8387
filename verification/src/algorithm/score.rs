//! Position scoring by material counting. Scores are integers in tenths of
//! a pawn, always from White's perspective: the sum of White's piece values
//! minus the sum of Black's, with the king worth nothing.

use vstd::prelude::*;

use crate::board::{pieces_of, side_pieces, PieceKind, Side};
use cozy_chess::Board;

verus! {

/// The value of one piece, in tenths of a pawn.
pub open spec fn piece_val(p: PieceKind) -> int {
    match p {
        PieceKind::Pawn => 10,
        PieceKind::Knight => 30,
        PieceKind::Bishop => 35,
        PieceKind::Rook => 50,
        PieceKind::Queen => 90,
        PieceKind::King => 0,
    }
}

/// The summed value of a sequence of pieces.
pub open spec fn material_sum(s: Seq<PieceKind>) -> int
    decreases s.len(),
{
    if s.len() == 0 {
        0
    } else {
        material_sum(s.drop_last()) + piece_val(s.last())
    }
}

/// The material balance of a position from White's perspective.
pub open spec fn material(b: Board) -> int {
    material_sum(pieces_of(b, Side::White)) - material_sum(pieces_of(b, Side::Black))
}

/// A side's material is nonnegative and at most 90 per piece.
pub proof fn lemma_material_sum_bounds(s: Seq<PieceKind>)
    ensures
        0 <= material_sum(s) <= 90 * s.len(),
    decreases s.len(),
{
    if s.len() > 0 {
        lemma_material_sum_bounds(s.drop_last());
    }
}

/// The value of one piece, in tenths of a pawn: pawn 10, knight 30,
/// bishop 35, rook 50, queen 90, king 0.
pub fn piece_value(p: PieceKind) -> (r: i64)
    ensures
        r as int == piece_val(p),
{
    match p {
        PieceKind::Pawn => 10,
        PieceKind::Knight => 30,
        PieceKind::Bishop => 35,
        PieceKind::Rook => 50,
        PieceKind::Queen => 90,
        PieceKind::King => 0,
    }
}

/// The default scoring policy: material counting from White's perspective.
#[derive(Clone, Copy, Debug)]
pub struct PawnDifferenceScore;

impl Default for PawnDifferenceScore {
    fn default() -> (r: Self)
        ensures
            r == (PawnDifferenceScore {}),
    {
        PawnDifferenceScore {}
    }
}

impl PawnDifferenceScore {
    /// Score `board` from White's perspective: White's material minus
    /// Black's. A side has at most 64 pieces of value at most 90 each, so
    /// the result lies within 5760 of zero.
    pub fn score(&self, board: &Board) -> (r: i64)
        ensures
            r as int == material(*board),
            -5760 <= r <= 5760,
    {
        let white_total = side_material(board, Side::White);
        let black_total = side_material(board, Side::Black);
        proof {
            lemma_material_sum_bounds(pieces_of(*board, Side::White));
            lemma_material_sum_bounds(pieces_of(*board, Side::Black));
        }
        white_total - black_total
    }
}

/// Sum the piece values of one side of `board`.
fn side_material(board: &Board, s: Side) -> (r: i64)
    ensures
        r as int == material_sum(pieces_of(*board, s)),
        0 <= r <= 5760,
{
    let pieces = side_pieces(board, s);
    let ghost all = pieces_of(*board, s);
    let mut total: i64 = 0;
    let mut i: usize = 0;
    proof {
        lemma_material_sum_bounds(all);
    }
    while i < pieces.len()
        invariant
            i <= pieces.len(),
            pieces@ == all,
            all.len() <= 64,
            total as int == material_sum(all.subrange(0, i as int)),
            0 <= total <= 90 * i,
        decreases pieces.len() - i,
    {
        let v = piece_value(pieces[i]);
        proof {
            assert(all.subrange(0, i + 1).drop_last() =~= all.subrange(0, i as int));
            lemma_material_sum_bounds(all.subrange(0, i as int));
        }
        total = total + v;
        i = i + 1;
    }
    proof {
        assert(all.subrange(0, all.len() as int) =~= all);
    }
    total
}

} // verus!
