//! The boundary to the position engine (`cozy_chess`). The engine owns the
//! board representation, move legality and terminal-state classification;
//! this module gives those capabilities names that contracts can speak of,
//! and hands the rest of the library plain values: sides, piece kinds,
//! square indices and moves.

use vstd::prelude::*;

use cozy_chess::Board;

verus! {

/// One of the two players, identified by colour.
#[derive(Clone, Copy, Debug, PartialEq, Eq, Structural)]
pub enum Side {
    White,
    Black,
}

/// A kind of chess piece.
#[derive(Clone, Copy, Debug, PartialEq, Eq, Structural)]
pub enum PieceKind {
    Pawn,
    Knight,
    Bishop,
    Rook,
    Queen,
    King,
}

/// The position engine's verdict on a position: play goes on, the game is
/// drawn, or the side to move has been checkmated.
#[derive(Clone, Copy, Debug, PartialEq, Eq, Structural)]
pub enum GameState {
    Ongoing,
    Drawn,
    Won,
}

/// A move: source and destination square indices as the position engine
/// counts them (0 is a1, 7 is h1, 63 is h8), and the promotion piece index
/// (the engine's piece order, 0 pawn through 5 king) if the move promotes.
/// Equality is structural.
#[derive(Clone, Copy, Debug, PartialEq, Eq)]
pub struct Mv {
    pub from: u8,
    pub to: u8,
    pub promotion: Option<u8>,
}

#[verifier::external_type_specification]
#[verifier::external_body]
pub struct ExBoard(Board);

/// The side to move in `b`.
pub uninterp spec fn side_of(b: Board) -> Side;

/// The position engine's status for `b`.
pub uninterp spec fn status_of(b: Board) -> GameState;

/// The legal moves of `b` for its side to move, in the engine's generation
/// order.
pub uninterp spec fn moves_of(b: Board) -> Seq<Mv>;

/// The squares of the pieces currently giving check in `b`.
pub uninterp spec fn checkers_of(b: Board) -> Seq<u8>;

/// The position reached from `b` by playing the legal move `m`.
pub uninterp spec fn after_play(b: Board, m: Mv) -> Board;

/// The kinds of the pieces of side `s` in `b`, one entry per occupied square.
pub uninterp spec fn pieces_of(b: Board, s: Side) -> Seq<PieceKind>;

/// The side occupying square `sq` in `b`, if any.
pub uninterp spec fn color_on_of(b: Board, sq: u8) -> Option<Side>;

/// Relies on `cozy_chess::Board::side_to_move`, a pure accessor.
#[verifier::external_body]
pub(crate) fn side_to_move(board: &Board) -> (r: Side)
    ensures
        r == side_of(*board),
{
    match board.side_to_move() {
        cozy_chess::Color::White => Side::White,
        cozy_chess::Color::Black => Side::Black,
    }
}

/// Relies on `cozy_chess::Board::status`: it reports `Ongoing` only when a
/// legal move exists, and with no legal moves it reports `Won` exactly when
/// the side to move is in check (checkmate) and `Drawn` otherwise
/// (stalemate).
#[verifier::external_body]
pub(crate) fn game_status(board: &Board) -> (r: GameState)
    ensures
        r == status_of(*board),
        r is Ongoing ==> moves_of(*board).len() > 0,
        r is Won ==> moves_of(*board).len() == 0,
        moves_of(*board).len() == 0 ==> (r is Won <==> checkers_of(*board).len() > 0),
        moves_of(*board).len() == 0 ==> (r is Drawn <==> checkers_of(*board).len() == 0),
{
    match board.status() {
        cozy_chess::GameStatus::Ongoing => GameState::Ongoing,
        cozy_chess::GameStatus::Drawn => GameState::Drawn,
        cozy_chess::GameStatus::Won => GameState::Won,
    }
}

/// Relies on `cozy_chess::Board::generate_moves_for` over the side to move's
/// own pieces, which enumerates exactly the legal moves; square indices are
/// below 64.
#[verifier::external_body]
pub(crate) fn legal_moves(board: &Board) -> (r: Vec<Mv>)
    ensures
        r@ == moves_of(*board),
        forall|i: int|
            0 <= i < r@.len() ==> (#[trigger] r@[i]).from < 64 && r@[i].to < 64,
{
    let mut out: Vec<Mv> = Vec::new();
    let own = board.colors(board.side_to_move());
    board.generate_moves_for(own, |pms| {
        for m in pms {
            out.push(Mv {
                from: m.from as u8,
                to: m.to as u8,
                promotion: m.promotion.map(|p| p as u8),
            });
        }
        false
    });
    out
}

/// Relies on `cozy_chess::Board::checkers`, the set of pieces giving check,
/// iterated as square indices.
#[verifier::external_body]
pub(crate) fn checker_squares(board: &Board) -> (r: Vec<u8>)
    ensures
        r@ == checkers_of(*board),
{
    let mut out: Vec<u8> = Vec::new();
    for sq in board.checkers() {
        out.push(sq as u8);
    }
    out
}

/// Relies on `cozy_chess::Board::play`, which panics only on illegal moves;
/// the caller must pass a legal move of `board`.
#[verifier::external_body]
pub(crate) fn play_mv(board: &Board, m: &Mv) -> (r: Board)
    requires
        moves_of(*board).contains(*m),
    ensures
        r == after_play(*board, *m),
{
    let mv = cozy_chess::Move {
        from: cozy_chess::Square::index(m.from as usize),
        to: cozy_chess::Square::index(m.to as usize),
        promotion: m.promotion.map(|p| cozy_chess::Piece::index(p as usize)),
    };
    let mut next = board.clone();
    next.play(mv);
    next
}

/// Relies on `cozy_chess::Board::colors` and `Board::piece_on`: every square
/// of a side's bitboard holds a piece, and a board has at most 64 squares.
#[verifier::external_body]
pub(crate) fn side_pieces(board: &Board, s: Side) -> (r: Vec<PieceKind>)
    ensures
        r@ == pieces_of(*board, s),
        r@.len() <= 64,
{
    let c = if matches!(s, Side::White) { cozy_chess::Color::White } else { cozy_chess::Color::Black };
    let mut out: Vec<PieceKind> = Vec::new();
    for sq in board.colors(c) {
        out.push(match board.piece_on(sq).expect("piece on an occupied square") {
            cozy_chess::Piece::Pawn => PieceKind::Pawn,
            cozy_chess::Piece::Knight => PieceKind::Knight,
            cozy_chess::Piece::Bishop => PieceKind::Bishop,
            cozy_chess::Piece::Rook => PieceKind::Rook,
            cozy_chess::Piece::Queen => PieceKind::Queen,
            cozy_chess::Piece::King => PieceKind::King,
        });
    }
    out
}

/// Relies on `cozy_chess::Board::color_on`, a pure accessor; square indices
/// must be below 64.
#[verifier::external_body]
pub(crate) fn color_on(board: &Board, sq: u8) -> (r: Option<Side>)
    requires
        sq < 64,
    ensures
        r == color_on_of(*board, sq),
{
    match board.color_on(cozy_chess::Square::index(sq as usize)) {
        Some(cozy_chess::Color::White) => Some(Side::White),
        Some(cozy_chess::Color::Black) => Some(Side::Black),
        None => None,
    }
}

} // verus!
