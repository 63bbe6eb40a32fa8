//! The questions that take a move generator to answer, asked of the
//! `shogi_core`, `shogi_legality_lite` and `shogi_official_kifu` crates.
//!
//! Each public wrapper here takes the library's own position and move, builds
//! the `shogi_core` values they stand for, makes one call, and hands back plain
//! values. What the call returns is named rather than restated: each name below
//! stands for the result of one outside function on the position and move it
//! is given.

use vstd::prelude::*;
use crate::position::{CorePiece, PieceMove, BoardState, PositionView, Square};

verus! {

#[verifier::external_type_specification]
#[verifier::external_body]
pub struct ExCorePartialPosition(shogi_core::PartialPosition);

#[verifier::external_type_specification]
#[verifier::external_body]
pub struct ExCoreMove(shogi_core::Move);

/// The squares `shogi_legality_lite::normal_to_candidates` returns for a
/// position, a destination and a piece, in the order its bitboard yields them.
pub uninterp spec fn legal_normal_origins(p: PositionView, to: Square, piece: CorePiece) -> Seq<Square>;

/// What `shogi_legality_lite::prelegality::is_valid` answers for a position and
/// a move.
pub uninterp spec fn prelegal(p: PositionView, mv: PieceMove) -> bool;

/// What `shogi_official_kifu::display_single_move_kansuji` returns for a
/// position and a move. The position handed over carries no last move, so
/// the text never begins with `同`; the library reads only its suffix.
pub uninterp spec fn official_kansuji(p: PositionView, mv: PieceMove) -> Option<Seq<char>>;

/// What `shogi_core::BoardState::to_sfen_owned` returns for a position.
pub uninterp spec fn sfen(p: PositionView) -> Seq<char>;

/// `shogi_core::Move` for a move, through `Square::new` and `Piece::new`;
/// `PieceKind::all` lists the kinds in the order `Kind` declares them.
#[verifier::external_body]
fn core_move(mv: PieceMove) -> shogi_core::Move {
    let sq = |s: Square| shogi_core::Square::new(s.file, s.rank).unwrap();
    match mv {
        PieceMove::Normal { from, to, promote } => shogi_core::Move::Normal { from: sq(from), to: sq(to), promote },
        PieceMove::Drop { piece, to } => shogi_core::Move::Drop {
            piece: shogi_core::Piece::new(shogi_core::PieceKind::all()[piece.kind as usize], shogi_core::Color::all()[piece.color as usize]),
            to: sq(to),
        },
    }
}

/// Gives `p` the hands of `pos`, through `hand_of_a_player_mut` and
/// `Hand::added`; `PieceKind::all` begins with the seven kinds a hand holds,
/// in the order `Hand` declares its fields.
#[verifier::external_body]
fn core_set_hands(p: &mut shogi_core::PartialPosition, pos: &BoardState) {
    for c in shogi_core::Color::all() {
        let h = &pos.hands[c.array_index()];
        let counts = [h.FU, h.KY, h.KE, h.GI, h.KI, h.KA, h.HI];
        let hand = p.hand_of_a_player_mut(c);
        for (i, n) in counts.into_iter().enumerate() {
            for _ in 0..n {
                *hand = hand.added(shogi_core::PieceKind::all()[i]).unwrap_or(*hand);
            }
        }
    }
}

/// A `shogi_core::PartialPosition` with the board, hands and side to move of
/// `pos`, built with `empty`, `piece_set` and `side_to_move_set`. The last move
/// is not carried over.
#[verifier::external_body]
fn core_position(pos: &BoardState) -> shogi_core::PartialPosition {
    let mut p = shogi_core::PartialPosition::empty();
    for sq in shogi_core::Square::all() {
        let piece = pos.board[sq.array_index()].map(|c| shogi_core::Piece::new(shogi_core::PieceKind::all()[c.kind as usize], shogi_core::Color::all()[c.color as usize]));
        p.piece_set(sq, piece);
    }
    core_set_hands(&mut p, pos);
    p.side_to_move_set(shogi_core::Color::all()[pos.side as usize]);
    p
}

/// Calls `shogi_legality_lite::normal_to_candidates`: the squares from which
/// `piece` can legally move to `to`.
#[verifier::external_body]
pub(crate) fn normal_to_candidates(pos: &BoardState, to: Square, piece: CorePiece) -> (r: Vec<Square>)
    ensures
        r@ == legal_normal_origins(pos@, to, piece),
{
    let to = shogi_core::Square::new(to.file, to.rank).unwrap();
    let piece = shogi_core::Piece::new(shogi_core::PieceKind::all()[piece.kind as usize], shogi_core::Color::all()[piece.color as usize]);
    let bb = shogi_legality_lite::normal_to_candidates(&core_position(pos), to, piece);
    bb.map(|sq| Square { file: sq.file(), rank: sq.rank() }).collect()
}

/// Calls `shogi_legality_lite::prelegality::is_valid`: whether the move is
/// valid without considering the king's safety.
#[verifier::external_body]
pub(crate) fn is_valid(pos: &BoardState, mv: PieceMove) -> (b: bool)
    ensures
        b == prelegal(pos@, mv),
{
    shogi_legality_lite::prelegality::is_valid(&core_position(pos), core_move(mv))
}

/// Calls `shogi_official_kifu::display_single_move_kansuji` on the position
/// without its last move: the traditional notation for the move (with the
/// destination always written out), or `None` when it has none.
#[verifier::external_body]
pub(crate) fn display_single_move_kansuji(pos: &BoardState, mv: PieceMove) -> (r: Option<String>)
    ensures
        match r {
            Some(s) => official_kansuji(pos@, mv) == Some(s@),
            None => official_kansuji(pos@, mv) is None,
        },
{
    shogi_official_kifu::display_single_move_kansuji(&core_position(pos), core_move(mv))
}

/// Calls `shogi_core::BoardState::to_sfen_owned`: the position in SFEN.
#[verifier::external_body]
pub(crate) fn to_sfen(pos: &BoardState) -> (s: String)
    ensures
        s@ == sfen(pos@),
{
    core_position(pos).to_sfen_owned()
}

} // verus!
