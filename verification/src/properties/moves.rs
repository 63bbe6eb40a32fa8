//! What a move does and how it is written: the origin a relative word picks,
//! where a captured piece goes, the time a CSA move line carries, and the
//! USI spelling of a promotion.

use vstd::prelude::*;
use crate::converter::csa::{csa_move_line, csa_node};
use crate::engine::legal_normal_origins;
use crate::jkf::{Color, Kind, MoveFormat, MoveMoveFormat, Relative, spec_unpromoted};
use crate::normalizer::{max_relative_file, min_relative_file, narrowed, spec_calculate_from};
use crate::position::{place, spec_make_move, CorePiece, PieceMove, PositionView, Square};
use crate::text::decimal;
use crate::usi::spec_move_usi;

verus! {

broadcast use vstd::seq_lib::group_filter_ensures;

proof fn lemma_max_file(cands: Seq<Square>, side: Color)
    ensures
        forall|i: int| 0 <= i < cands.len() ==> (#[trigger] cands[i]).spec_relative_file(side) <= max_relative_file(cands, side),
        forall|i: int| 0 <= i < cands.len() ==> (#[trigger] cands[i]).spec_relative_file(side) >= min_relative_file(cands, side),
    decreases cands.len(),
{
    if cands.len() > 0 {
        lemma_max_file(cands.drop_last(), side);
        assert forall|i: int| 0 <= i < cands.len() implies (#[trigger] cands[i]).spec_relative_file(side) <= max_relative_file(cands, side)
            && cands[i].spec_relative_file(side) >= min_relative_file(cands, side) by {
            if i < cands.len() - 1 {
                assert(cands[i] == cands.drop_last()[i]);
            }
        }
    }
}

/// The origin a relative word picks among several pieces that can reach the
/// destination is one of them, and moves as the word says, ranks and files
/// counted as the mover sees the board (rank 1 the far end): with 上 it
/// moves forward (its rank larger than the destination's), with 引 it steps
/// back (its rank smaller), with 寄 it stays on the destination's rank; with
/// 左 it is the leftmost of them, with 右 the rightmost, and with 直 it stands
/// on the destination's file.
pub proof fn a_relative_word_picks_the_piece_that_moves_as_it_says(mmf: MoveMoveFormat, pos: PositionView, to: Square)
    requires
        legal_normal_origins(pos, to, CorePiece { kind: mmf.piece, color: pos.side }).len() > 1,
        spec_calculate_from(mmf, pos, to) matches Ok(Some(_)),
    ensures
        ({
            let cands = legal_normal_origins(pos, to, CorePiece { kind: mmf.piece, color: pos.side });
            let side = pos.side;
            let rel = mmf.relative.unwrap();
            exists|sq: Square| #![trigger cands.contains(sq)]
                cands.contains(sq)
                && spec_calculate_from(mmf, pos, to) == Ok::<Option<crate::jkf::PlaceFormat>, crate::normalizer::NormFault>(Some(place(sq)))
                && (rel == Relative::U || rel == Relative::LU || rel == Relative::RU ==> sq.spec_relative_rank(side) > to.spec_relative_rank(side))
                && (rel == Relative::D || rel == Relative::LD || rel == Relative::RD ==> sq.spec_relative_rank(side) < to.spec_relative_rank(side))
                && (rel == Relative::M || rel == Relative::LM || rel == Relative::RM ==> sq.spec_rank() == to.spec_rank())
                && (rel == Relative::C ==> sq.spec_file() == to.spec_file())
                && (rel == Relative::L || rel == Relative::LU || rel == Relative::LM || rel == Relative::LD ==>
                    forall|i: int| 0 <= i < cands.len() ==> (#[trigger] cands[i]).spec_relative_file(side) <= sq.spec_relative_file(side))
                && (rel == Relative::R || rel == Relative::RU || rel == Relative::RM || rel == Relative::RD ==>
                    forall|i: int| 0 <= i < cands.len() ==> (#[trigger] cands[i]).spec_relative_file(side) >= sq.spec_relative_file(side))
        }),
{
    let cands = legal_normal_origins(pos, to, CorePiece { kind: mmf.piece, color: pos.side });
    let side = pos.side;
    let rel = mmf.relative.unwrap();
    let ph = |sq: Square| crate::normalizer::keeps_horizontal(rel, sq, cands, to, side);
    let pv = |sq: Square| crate::normalizer::keeps_vertical(rel, sq, to, side);
    let h = cands.filter(ph);
    let left = narrowed(cands, rel, to, side);
    assert(left == h.filter(pv));
    assert(left.len() == 1);
    let sq = left[0];
    assert(left.contains(sq));
    assert(pv(sq));
    h.lemma_filter_contains_rev(pv, sq);
    assert(h.contains(sq));
    let j = choose|j: int| 0 <= j < h.len() && h[j] == sq;
    cands.lemma_filter_pred(ph, j);
    assert(ph(sq));
    cands.lemma_filter_contains_rev(ph, sq);
    assert(cands.contains(sq));
    lemma_max_file(cands, side);
}

/// A move that captures puts the piece it takes, unpromoted, in the mover's
/// hand: one more of that kind there than before (the count wrapping past
/// 255), every other count of the mover's hand as it was, and the other
/// side's hand untouched.
pub proof fn a_captured_piece_goes_to_the_hand_of_the_side_that_took_it(p: PositionView, from: Square, to: Square, promote: bool)
    requires
        p.hands.len() == 2,
        spec_make_move(p, PieceMove::Normal { from, to, promote }) is Some,
        p.piece_at(to) is Some,
    ensures
        ({
            let q = spec_make_move(p, PieceMove::Normal { from, to, promote }).unwrap();
            let k = spec_unpromoted(p.piece_at(to).unwrap().kind);
            let mover = p.side;
            let other = p.side.spec_flip();
            &&& p.hand(mover).spec_slot(k) is Some
            &&& q.hand(mover).spec_slot(k) == Some(((p.hand(mover).spec_slot(k).unwrap() + 1) % 256) as u8)
            &&& forall|k2: Kind| k2 != k ==> #[trigger] q.hand(mover).spec_slot(k2) == p.hand(mover).spec_slot(k2)
            &&& q.hand(other) == p.hand(other)
            &&& q.hands.len() == 2
        }),
{
    assert(p.side.spec_index() != p.side.spec_flip().spec_index()) by {
        match p.side { Color::Black => {}, Color::White => {} }
    }
    assert(0 <= p.side.spec_index() < 2 && 0 <= p.side.spec_flip().spec_index() < 2) by {
        match p.side { Color::Black => {}, Color::White => {} }
    }
}

/// The `T` line CSA writes under a move holds that move's own time in
/// seconds (hours, minutes and seconds of `now` added up), not the running
/// total; it follows the move line.
pub proof fn a_csa_time_line_holds_the_move_s_own_time(n: MoveFormat)
    requires
        n.move_ is Some,
        n.time is Some,
        csa_move_line(n.move_.unwrap()).1 is None,
    ensures
        ({
            let t = n.time.unwrap().now;
            let secs = ((match t.h { Some(h) => h as nat, None => 0nat }) * 3600 + t.m * 60 + t.s) as nat;
            let l = csa_move_line(n.move_.unwrap()).0.len() as int;
            let w = "T"@ + decimal(secs) + "\n"@;
            &&& csa_node(n).1 is None
            &&& csa_node(n).0.len() >= l + w.len()
            &&& csa_node(n).0.subrange(l, l + w.len()) == w
        }),
{
    let t = n.time.unwrap().now;
    let secs = ((match t.h { Some(h) => h as nat, None => 0nat }) * 3600 + t.m * 60 + t.s) as nat;
    let line = csa_move_line(n.move_.unwrap()).0;
    let w = "T"@ + decimal(secs) + "\n"@;
    let comments = match n.comments {
        Some(c) => crate::converter::csa::comment_lines(c@, "'"@),
        None => Seq::empty(),
    };
    assert(csa_node(n).0 == line + (w + comments));
    assert((line + (w + comments)).subrange(line.len() as int, (line.len() + w.len()) as int) =~= w);
}

/// USI marks a promotion with a trailing `+`: a promoting move is written in
/// five characters ending in `+`, a move that does not promote in four
/// ending in a rank letter.
pub proof fn usi_marks_a_promotion_with_a_plus(from: Square, to: Square, promote: bool)
    ensures
        promote ==> spec_move_usi(PieceMove::Normal { from, to, promote }).len() == 5
            && spec_move_usi(PieceMove::Normal { from, to, promote }).last() == '+',
        !promote ==> spec_move_usi(PieceMove::Normal { from, to, promote }).len() == 4
            && 'a' <= spec_move_usi(PieceMove::Normal { from, to, promote }).last() <= 'i',
{
    reveal_strlit("+");
}

/// Whether `sq` is a square of the board, as a square value always is.
pub open spec fn on_the_board(sq: Square) -> bool {
    1 <= sq.spec_file() <= 9 && 1 <= sq.spec_rank() <= 9
}

proof fn lemma_index_range(sq: Square)
    requires
        on_the_board(sq),
    ensures
        0 <= sq.spec_index() < 81,
{
}

/// A normal move carries the mover's piece from its square to the
/// destination, promoted when it promotes: its square is left empty, every
/// other square keeps what it held, the turn passes, the move is the last
/// move, and without a capture the hands stay as they were.
pub proof fn a_move_carries_the_piece_to_its_destination(p: PositionView, from: Square, to: Square, promote: bool)
    requires
        p.board.len() == 81,
        p.hands.len() == 2,
        on_the_board(from),
        on_the_board(to),
        spec_make_move(p, PieceMove::Normal { from, to, promote }) is Some,
    ensures
        ({
            let q = spec_make_move(p, PieceMove::Normal { from, to, promote }).unwrap();
            let piece = p.piece_at(from).unwrap();
            &&& p.piece_at(from) is Some
            &&& piece.color == p.side
            &&& q.piece_at(to) == Some(if promote { CorePiece { kind: crate::jkf::spec_promoted(piece.kind), color: piece.color } } else { piece })
            &&& q.piece_at(from) is None
            &&& forall|i: int| 0 <= i < 81 && i != from.spec_index() && i != to.spec_index() ==> #[trigger] q.board[i] == p.board[i]
            &&& q.side == p.side.spec_flip()
            &&& q.last_move == Some(PieceMove::Normal { from, to, promote })
            &&& p.piece_at(to) is None ==> q.hands == p.hands
        }),
{
    lemma_index_range(from);
    lemma_index_range(to);
}

/// A drop puts a piece from the mover's hand on an empty square: one fewer
/// of that kind in the mover's hand, the other side's hand untouched, every
/// other square as it was, and the turn passes.
pub proof fn a_drop_takes_the_piece_from_the_mover_s_hand(p: PositionView, piece: CorePiece, to: Square)
    requires
        p.board.len() == 81,
        p.hands.len() == 2,
        on_the_board(to),
        spec_make_move(p, PieceMove::Drop { piece, to }) is Some,
    ensures
        ({
            let q = spec_make_move(p, PieceMove::Drop { piece, to }).unwrap();
            let mover = p.side;
            &&& piece.color == mover
            &&& p.piece_at(to) is None
            &&& q.piece_at(to) == Some(piece)
            &&& forall|i: int| 0 <= i < 81 && i != to.spec_index() ==> #[trigger] q.board[i] == p.board[i]
            &&& p.hand(mover).spec_slot(piece.kind) matches Some(n) && n > 0
                && q.hand(mover).spec_slot(piece.kind) == Some((n - 1) as u8)
            &&& forall|k2: Kind| k2 != piece.kind ==> #[trigger] q.hand(mover).spec_slot(k2) == p.hand(mover).spec_slot(k2)
            &&& q.hand(mover.spec_flip()) == p.hand(mover.spec_flip())
            &&& q.side == mover.spec_flip()
        }),
{
    lemma_index_range(to);
    assert(p.side.spec_index() != p.side.spec_flip().spec_index()) by {
        match p.side { Color::Black => {}, Color::White => {} }
    }
    assert(0 <= p.side.spec_index() < 2 && 0 <= p.side.spec_flip().spec_index() < 2) by {
        match p.side { Color::Black => {}, Color::White => {} }
    }
}

/// USI writes a drop as the piece's letter (upper case, the same for either
/// side), `*` and the square: four characters, `*` the second.
pub proof fn usi_writes_a_drop_as_letter_star_square(piece: CorePiece, to: Square)
    requires
        !crate::jkf::is_promoted(piece.kind),
    ensures
        spec_move_usi(PieceMove::Drop { piece, to }).len() == 4,
        spec_move_usi(PieceMove::Drop { piece, to })[1] == '*',
        spec_move_usi(PieceMove::Drop { piece, to })[0] == (match piece.kind {
            Kind::FU => 'P',
            Kind::KY => 'L',
            Kind::KE => 'N',
            Kind::GI => 'S',
            Kind::KI => 'G',
            Kind::KA => 'B',
            Kind::HI => 'R',
            _ => 'K',
        }),
{
    reveal_strlit("*");
    reveal_strlit("P");
    reveal_strlit("L");
    reveal_strlit("N");
    reveal_strlit("S");
    reveal_strlit("G");
    reveal_strlit("B");
    reveal_strlit("R");
    reveal_strlit("K");
}

} // verus!
