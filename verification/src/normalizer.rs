//! Normalization: each move resolved against the position it is played from.
//!
//! The origin of a move that does not state one is found from the pieces that
//! can reach its destination; the piece, `同`, `成` and the captured piece are
//! read off the board; the running total of each side's time is summed; and the
//! disambiguating suffix (左/右/上/...) is filled in where the notation needs
//! one.

use vstd::prelude::*;
use crate::engine::{display_single_move_kansuji, is_valid, official_kansuji, prelegal};
use crate::error::{ConvertError, NormalizeError, NormalizeErrorKind};
use crate::engine::{legal_normal_origins, normal_to_candidates};
use crate::jkf::{MoveSpecial, Color, Hand, Initial, JsonKifuFormat, MoveFormat, MoveMoveFormat, PlaceFormat, Preset, Relative, StateFormat, Time, TimeFormat, can_promote, spec_promoted};
use crate::handicap::{board_is, preset_piece, spec_side_to_move, table_preset};
use crate::position::{BoardState, CorePiece, PieceMove, PositionView, Square, move_of, place, place_of, spec_initial_position, spec_make_move, spec_move_of, spec_square_of, spec_startpos, square_of};
use crate::text::{ends_with, seq_ends_with};

verus! {

/// The disambiguating suffix the traditional notation gives a move.
#[derive(Clone, Copy, Debug, PartialEq, Eq, Structural)]
pub enum Suffix {
    /// The move needs none.
    Nothing,
    /// The move takes this one.
    Only(Relative),
    /// More than one piece could have made the move and the notation has no
    /// way to say which.
    Unspellable,
}

impl Suffix {
    /// The suffix, when there is one to write.
    pub open spec fn spec_only(self) -> Option<Relative> {
        match self {
            Suffix::Only(r) => Some(r),
            _ => None,
        }
    }

    /// The suffix, when there is one to write.
    pub fn only(self) -> (r: Option<Relative>)
        ensures
            r == self.spec_only(),
    {
        match self {
            Suffix::Only(r) => Some(r),
            _ => None,
        }
    }
}

/// Whether a piece on `from` can move to `to`, promoting or not, without
/// regard to the king's safety.
pub open spec fn can_reach(p: PositionView, from: Square, to: Square) -> bool {
    prelegal(p, PieceMove::Normal { from, to, promote: false })
        || prelegal(p, PieceMove::Normal { from, to, promote: true })
}

/// How many of the squares at flat index below `n` hold `piece` and can reach
/// `to`.
pub open spec fn reachers(p: PositionView, piece: CorePiece, to: Square, n: int) -> int
    decreases n,
{
    if n <= 0 {
        0
    } else {
        reachers(p, piece, to, n - 1) + (if p.board[n - 1] == Some(piece) && can_reach(p, Square::spec_at(n - 1), to) { 1int } else { 0int })
    }
}

/// Whether the traditional notation for `mv` can carry a disambiguating
/// suffix at all: a normal move when two or more pieces like it can reach its
/// destination, a drop when such a piece on the board could have moved there
/// instead.
pub open spec fn spec_needs_disambiguation(p: PositionView, mv: PieceMove) -> bool {
    match mv {
        PieceMove::Normal { from, to, .. } => match p.piece_at(from) {
            None => false,
            Some(piece) => reachers(p, piece, to, 81) >= 2,
        },
        PieceMove::Drop { piece, to } => reachers(p, CorePiece { kind: piece.kind, color: p.side }, to, 81) >= 1,
    }
}

/// The notation without its promotion suffix: `不成` is tested first, since it
/// also ends in `成`.
pub open spec fn strip_promotion(t: Seq<char>) -> Seq<char> {
    if seq_ends_with(t, "不成"@) {
        t.subrange(0, t.len() - 2)
    } else if seq_ends_with(t, "成"@) {
        t.subrange(0, t.len() - 1)
    } else {
        t
    }
}

/// The relative a rendered move ends with, read off its last one or two
/// characters once the promotion suffix is off.
pub open spec fn relative_of_text(t: Seq<char>) -> Option<Relative> {
    let u = strip_promotion(t);
    if u.len() == 0 {
        None
    } else {
        let last = u.last();
        let prev: Option<char> = if u.len() >= 2 { Some(u[u.len() - 2]) } else { None };
        if last == '左' {
            Some(Relative::L)
        } else if last == '直' {
            Some(Relative::C)
        } else if last == '右' {
            Some(Relative::R)
        } else if last == '上' {
            if prev == Some('左') { Some(Relative::LU) } else if prev == Some('右') { Some(Relative::RU) } else { Some(Relative::U) }
        } else if last == '引' {
            if prev == Some('左') { Some(Relative::LD) } else if prev == Some('右') { Some(Relative::RD) } else { Some(Relative::D) }
        } else if last == '寄' {
            if prev == Some('左') { Some(Relative::LM) } else if prev == Some('右') { Some(Relative::RM) } else { Some(Relative::M) }
        } else if last == '打' {
            Some(Relative::H)
        } else {
            None
        }
    }
}

/// The suffix the traditional notation gives `mv` in `p`: none when the move
/// cannot carry one, unspellable when the notation has no rendering for it,
/// and otherwise whatever the rendering ends with.
pub open spec fn spec_infer_relative(p: PositionView, mv: PieceMove) -> Suffix {
    if !spec_needs_disambiguation(p, mv) {
        Suffix::Nothing
    } else {
        match official_kansuji(p, mv) {
            None => Suffix::Unspellable,
            Some(t) => match relative_of_text(t) {
                Some(r) => Suffix::Only(r),
                None => Suffix::Nothing,
            },
        }
    }
}

fn count_reachers(pos: &BoardState, piece: CorePiece, to: Square, need: usize) -> (r: bool)
    requires
        need >= 1,
    ensures
        r == (reachers(pos@, piece, to, 81) >= need),
{
    let mut found: usize = 0;
    let mut i: usize = 0;
    while i < 81
        invariant
            i <= 81,
            need >= 1,
            found == reachers(pos@, piece, to, i as int),
            found < need,
        decreases 81 - i,
    {
        let sq = Square::from_index(i);
        if pos.board[i] == Some(piece) {
            if is_valid(pos, PieceMove::Normal { from: sq, to, promote: false })
                || is_valid(pos, PieceMove::Normal { from: sq, to, promote: true }) {
                found = found + 1;
                if found >= need {
                    proof { lemma_reachers_monotone(pos@, piece, to, i + 1, 81); }
                    return true;
                }
            }
        }
        i = i + 1;
    }
    false
}

proof fn lemma_reachers_monotone(p: PositionView, piece: CorePiece, to: Square, a: int, b: int)
    requires
        0 <= a <= b,
    ensures
        reachers(p, piece, to, a) <= reachers(p, piece, to, b),
    decreases b - a,
{
    if a < b {
        lemma_reachers_monotone(p, piece, to, a, b - 1);
    }
}

/// Whether the traditional notation for `mv` can carry a disambiguating
/// suffix at all.
pub fn needs_disambiguation(pos: &BoardState, mv: PieceMove) -> (b: bool)
    ensures
        b == spec_needs_disambiguation(pos@, mv),
{
    match mv {
        PieceMove::Normal { from, to, .. } => match pos.piece_at(from) {
            None => false,
            Some(piece) => count_reachers(pos, piece, to, 2),
        },
        PieceMove::Drop { piece, to } => {
            count_reachers(pos, CorePiece { kind: piece.kind, color: pos.side }, to, 1)
        },
    }
}

/// Infers the disambiguating suffix (左/右/直/上/寄/引/打) for `mv` in `pos`.
///
/// The traditional notation orders a move as
/// `<destination><piece><relative><motion><promotion>`, so the promotion suffix
/// comes off before the relative part is read.
pub fn infer_relative_from_position(pos: &BoardState, mv: PieceMove) -> (s: Suffix)
    ensures
        s == spec_infer_relative(pos@, mv),
{
    if !needs_disambiguation(pos, mv) {
        return Suffix::Nothing;
    }
    let display = match display_single_move_kansuji(pos, mv) {
        Some(d) => d,
        None => return Suffix::Unspellable,
    };
    let t = display.as_str();
    let n = t.unicode_len();
    proof {
        reveal_strlit("不成");
        reveal_strlit("成");
    }
    let cut: usize = if ends_with(t, "不成") {
        n - 2
    } else if ends_with(t, "成") {
        n - 1
    } else {
        n
    };
    let ghost u = strip_promotion(t@);
    assert(u =~= t@.subrange(0, cut as int));
    if cut == 0 {
        return Suffix::Nothing;
    }
    let last = t.get_char(cut - 1);
    let prev: Option<char> = if cut >= 2 { Some(t.get_char(cut - 2)) } else { None };
    let r = if last == '左' {
        Some(Relative::L)
    } else if last == '直' {
        Some(Relative::C)
    } else if last == '右' {
        Some(Relative::R)
    } else if last == '上' {
        if prev == Some('左') { Some(Relative::LU) } else if prev == Some('右') { Some(Relative::RU) } else { Some(Relative::U) }
    } else if last == '引' {
        if prev == Some('左') { Some(Relative::LD) } else if prev == Some('右') { Some(Relative::RD) } else { Some(Relative::D) }
    } else if last == '寄' {
        if prev == Some('左') { Some(Relative::LM) } else if prev == Some('右') { Some(Relative::RM) } else { Some(Relative::M) }
    } else if last == '打' {
        Some(Relative::H)
    } else {
        None
    };
    match r {
        Some(r) => Suffix::Only(r),
        None => Suffix::Nothing,
    }
}


/// What went wrong normalizing a move, as a value specifications can compare.
pub enum NormFault {
    /// More than one candidate origin (or none) is left.
    Ambiguous(Seq<Square>),
    /// A `同` move with no move before it.
    NoLastMove,
    /// The origin holds no piece.
    NoPieceAt(Square),
    /// The position cannot apply the move.
    MakeMoveFailed(PieceMove),
    /// A place of the move is off the board.
    Convert(ConvertError),
    /// The move is played by the side that is not to move.
    InvalidColor,
}

/// The fault an error kind reports.
pub open spec fn fault_of(k: NormalizeErrorKind) -> NormFault {
    match k {
        NormalizeErrorKind::AmbiguousMoveFrom(v) => NormFault::Ambiguous(v@),
        NormalizeErrorKind::NoLastMove => NormFault::NoLastMove,
        NormalizeErrorKind::NoPieceAt(sq) => NormFault::NoPieceAt(sq),
        NormalizeErrorKind::MakeMoveFailed(m) => NormFault::MakeMoveFailed(m),
        NormalizeErrorKind::Convert(c) => NormFault::Convert(*c),
        NormalizeErrorKind::InvalidColor => NormFault::InvalidColor,
    }
}

/// The largest file, as `side` sees it, among `cands`.
pub open spec fn max_relative_file(cands: Seq<Square>, side: Color) -> int
    decreases cands.len(),
{
    if cands.len() == 0 {
        0
    } else {
        let rest = max_relative_file(cands.drop_last(), side);
        let f = cands.last().spec_relative_file(side);
        if f > rest { f } else { rest }
    }
}

/// The smallest file, as `side` sees it, among `cands`.
pub open spec fn min_relative_file(cands: Seq<Square>, side: Color) -> int
    decreases cands.len(),
{
    if cands.len() == 0 {
        10
    } else {
        let rest = min_relative_file(cands.drop_last(), side);
        let f = cands.last().spec_relative_file(side);
        if f < rest { f } else { rest }
    }
}

/// Whether `sq` survives the 左/右/直 part of `rel`: 左 and 右 rank the
/// candidates against each other (the leftmost and the rightmost file as the
/// mover sees the board), and 直 keeps the one on the destination's file.
pub open spec fn keeps_horizontal(rel: Relative, sq: Square, cands: Seq<Square>, to: Square, side: Color) -> bool {
    match rel {
        Relative::L | Relative::LU | Relative::LM | Relative::LD => sq.spec_relative_file(side) == max_relative_file(cands, side),
        Relative::R | Relative::RU | Relative::RM | Relative::RD => sq.spec_relative_file(side) == min_relative_file(cands, side),
        Relative::C => sq.spec_file() == to.spec_file(),
        _ => true,
    }
}

/// Whether `sq` survives the 上/寄/引 part of `rel`, which compares the
/// origin with the destination.
pub open spec fn keeps_vertical(rel: Relative, sq: Square, to: Square, side: Color) -> bool {
    match rel {
        Relative::U | Relative::LU | Relative::RU => sq.spec_relative_rank(side) > to.spec_relative_rank(side),
        Relative::M | Relative::LM | Relative::RM => sq.spec_rank() == to.spec_rank(),
        Relative::D | Relative::LD | Relative::RD => sq.spec_relative_rank(side) < to.spec_relative_rank(side),
        _ => true,
    }
}

/// The candidates `rel` leaves.
pub open spec fn narrowed(cands: Seq<Square>, rel: Relative, to: Square, side: Color) -> Seq<Square> {
    cands.filter(|sq: Square| keeps_horizontal(rel, sq, cands, to, side))
        .filter(|sq: Square| keeps_vertical(rel, sq, to, side))
}

/// The origin of a move that does not state one: the one piece like it that
/// can legally reach `to`; none (a drop) when no such piece can; and when
/// several can, the one the move's `relative` singles out.
pub open spec fn spec_calculate_from(mmf: MoveMoveFormat, pos: PositionView, to: Square) -> Result<Option<PlaceFormat>, NormFault> {
    let cands = legal_normal_origins(pos, to, CorePiece { kind: mmf.piece, color: pos.side });
    if cands.len() == 0 {
        Ok(None)
    } else if cands.len() == 1 {
        Ok(Some(place(cands[0])))
    } else {
        match mmf.relative {
            None => Err(NormFault::Ambiguous(cands)),
            Some(rel) => {
                let left = narrowed(cands, rel, to, pos.side);
                if left.len() == 1 {
                    Ok(Some(place(left[0])))
                } else {
                    Err(NormFault::Ambiguous(left))
                }
            },
        }
    }
}

fn max_min_relative_file(cands: &Vec<Square>, side: Color) -> (r: (u8, u8))
    ensures
        r.0 == max_relative_file(cands@, side),
        r.1 == min_relative_file(cands@, side),
{
    let mut mx: u8 = 0;
    let mut mn: u8 = 10;
    let mut i: usize = 0;
    while i < cands.len()
        invariant
            i <= cands@.len(),
            mx == max_relative_file(cands@.take(i as int), side),
            mn == min_relative_file(cands@.take(i as int), side),
        decreases cands@.len() - i,
    {
        let f = cands[i].relative_file(side);
        assert(cands@.take(i + 1).drop_last() =~= cands@.take(i as int));
        if f > mx {
            mx = f;
        }
        if f < mn {
            mn = f;
        }
        i = i + 1;
    }
    assert(cands@.take(cands@.len() as int) =~= cands@);
    (mx, mn)
}

fn keeps_horizontal_exec(rel: Relative, sq: Square, mx: u8, mn: u8, to: Square, side: Color) -> (b: bool)
    ensures
        forall|cands: Seq<Square>| mx == max_relative_file(cands, side) && mn == min_relative_file(cands, side)
            ==> b == keeps_horizontal(rel, sq, cands, to, side),
{
    match rel {
        Relative::L | Relative::LU | Relative::LM | Relative::LD => sq.relative_file(side) == mx,
        Relative::R | Relative::RU | Relative::RM | Relative::RD => sq.relative_file(side) == mn,
        Relative::C => sq.file() == to.file(),
        _ => true,
    }
}

fn keeps_vertical_exec(rel: Relative, sq: Square, to: Square, side: Color) -> (b: bool)
    ensures
        b == keeps_vertical(rel, sq, to, side),
{
    match rel {
        Relative::U | Relative::LU | Relative::RU => sq.relative_rank(side) > to.relative_rank(side),
        Relative::M | Relative::LM | Relative::RM => sq.rank() == to.rank(),
        Relative::D | Relative::LD | Relative::RD => sq.relative_rank(side) < to.relative_rank(side),
        _ => true,
    }
}

fn narrow(cands: &Vec<Square>, rel: Relative, to: Square, side: Color) -> (r: Vec<Square>)
    ensures
        r@ == narrowed(cands@, rel, to, side),
{
    let (mx, mn) = max_min_relative_file(cands, side);
    let ghost ph = |sq: Square| keeps_horizontal(rel, sq, cands@, to, side);
    let ghost pv = |sq: Square| keeps_vertical(rel, sq, to, side);
    let mut h: Vec<Square> = Vec::new();
    let mut i: usize = 0;
    while i < cands.len()
        invariant
            i <= cands@.len(),
            mx == max_relative_file(cands@, side),
            mn == min_relative_file(cands@, side),
            h@ == cands@.take(i as int).filter(ph),
            ph == (|sq: Square| keeps_horizontal(rel, sq, cands@, to, side)),
        decreases cands@.len() - i,
    {
        proof {
            reveal_with_fuel(Seq::<_>::filter, 1);
            assert(cands@.take(i + 1).drop_last() =~= cands@.take(i as int));
            assert(cands@.take(i + 1).last() == cands@[i as int]);
        }
        let keep = keeps_horizontal_exec(rel, cands[i], mx, mn, to, side);
        assert(keep == ph(cands@[i as int]));
        if keep {
            h.push(cands[i]);
        }
        i = i + 1;
    }
    assert(cands@.take(cands@.len() as int) =~= cands@);
    let mut v: Vec<Square> = Vec::new();
    let mut j: usize = 0;
    while j < h.len()
        invariant
            j <= h@.len(),
            v@ == h@.take(j as int).filter(pv),
            pv == (|sq: Square| keeps_vertical(rel, sq, to, side)),
        decreases h@.len() - j,
    {
        proof {
            reveal_with_fuel(Seq::<_>::filter, 1);
            assert(h@.take(j + 1).drop_last() =~= h@.take(j as int));
            assert(h@.take(j + 1).last() == h@[j as int]);
        }
        let keep = keeps_vertical_exec(rel, h[j], to, side);
        assert(keep == pv(h@[j as int]));
        if keep {
            v.push(h[j]);
        }
        j = j + 1;
    }
    assert(h@.take(h@.len() as int) =~= h@);
    v
}

/// The origin of a move that does not state one (see
/// [`spec_calculate_from`]).
fn calculate_from(mmf: &MoveMoveFormat, pos: &BoardState, to: Square) -> (r: Result<Option<PlaceFormat>, NormalizeErrorKind>)
    ensures
        match r {
            Ok(f) => spec_calculate_from(*mmf, pos@, to) == Ok::<Option<PlaceFormat>, NormFault>(f),
            Err(e) => spec_calculate_from(*mmf, pos@, to) == Err::<Option<PlaceFormat>, NormFault>(fault_of(e)),
        },
{
    let side = pos.side_to_move();
    let cands = normal_to_candidates(pos, to, CorePiece { kind: mmf.piece, color: side });
    if cands.len() == 0 {
        Ok(None)
    } else if cands.len() == 1 {
        Ok(Some(place_of(cands[0])))
    } else {
        match mmf.relative {
            None => Err(NormalizeErrorKind::AmbiguousMoveFrom(cands)),
            Some(rel) => {
                let left = narrow(&cands, rel, to, side);
                if left.len() == 1 {
                    Ok(Some(place_of(left[0])))
                } else {
                    Err(NormalizeErrorKind::AmbiguousMoveFrom(left))
                }
            },
        }
    }
}


/// A move's color, checked against the side to move or, when `correct_color`
/// is set, taken from it.
pub open spec fn spec_norm_color(mmf: MoveMoveFormat, pos: PositionView, correct_color: bool) -> Result<MoveMoveFormat, NormFault> {
    if correct_color {
        Ok(MoveMoveFormat { color: pos.side, ..mmf })
    } else if mmf.color != pos.side {
        Err(NormFault::InvalidColor)
    } else {
        Ok(mmf)
    }
}

/// A `同` move gets the destination of the move before it.
pub open spec fn spec_norm_same(mmf: MoveMoveFormat, pos: PositionView) -> Result<MoveMoveFormat, NormFault> {
    if mmf.same.is_some() {
        match pos.last_move {
            None => Err(NormFault::NoLastMove),
            Some(last) => Ok(MoveMoveFormat { to: place(last.spec_to()), ..mmf }),
        }
    } else {
        Ok(mmf)
    }
}

/// The origin a reader gives a move whose notation does not say where the
/// piece comes from (KI2 writes only the destination): `(0, 0)`, off the
/// board, and not `None`, which JKF keeps for a drop.
pub open spec fn spec_origin_unstated() -> PlaceFormat {
    PlaceFormat { x: 0, y: 0 }
}

/// See [`spec_origin_unstated`].
pub fn origin_unstated() -> (p: PlaceFormat)
    ensures
        p == spec_origin_unstated(),
{
    PlaceFormat { x: 0, y: 0 }
}

/// A move whose origin is unstated (see [`spec_origin_unstated`]) gets the
/// one [`spec_calculate_from`] finds. Any other move keeps its origin: one
/// without an origin is a drop, even where a piece on the board could also
/// reach the square.
pub open spec fn spec_norm_from(mmf: MoveMoveFormat, pos: PositionView, to: Square) -> Result<MoveMoveFormat, NormFault> {
    if mmf.from == Some(spec_origin_unstated()) {
        match spec_calculate_from(mmf, pos, to) {
            Err(e) => Err(e),
            Ok(f) => Ok(MoveMoveFormat { from: f, ..mmf }),
        }
    } else {
        Ok(mmf)
    }
}

/// The fields read off the board for a move from a square of it: the piece
/// standing there, `同` when it lands where the last move did, `成` (whether it
/// promotes) where the notation has a word for it, and the piece it takes. An
/// origin off the board is dropped, which makes the move a drop.
pub open spec fn spec_norm_fields(mmf: MoveMoveFormat, pos: PositionView, to: Square) -> Result<MoveMoveFormat, NormFault> {
    match mmf.from {
        None => Ok(mmf),
        Some(pf) => match spec_square_of(pf) {
            Err(_) => Ok(MoveMoveFormat { from: None, ..mmf }),
            Ok(from) => match pos.piece_at(from) {
                None => Err(NormFault::NoPieceAt(from)),
                Some(piece) => {
                    let fk = piece.kind;
                    let tk = if mmf.promote == Some(true) { spec_promoted(mmf.piece) } else { mmf.piece };
                    let side = pos.side;
                    Ok(MoveMoveFormat {
                        piece: fk,
                        same: if pos.last_move matches Some(last) && last.spec_to() == to { Some(true) } else { None },
                        promote: if can_promote(fk) && (from.spec_relative_rank(side) <= 3 || to.spec_relative_rank(side) <= 3) {
                            Some(fk != tk)
                        } else {
                            None
                        },
                        capture: match pos.piece_at(to) {
                            Some(p) => Some(p.kind),
                            None => None,
                        },
                        ..mmf
                    })
                },
            },
        },
    }
}

/// A move resolved against `pos`: the move as it should be recorded and the
/// move the position applies, or what went wrong.
///
/// The color is checked (or, with `correct_color`, corrected); a `同` move gets
/// its destination; a move without an origin gets one; the piece, `同`, `成`
/// and the capture are read off the board; and, with `infer_relative`, a move
/// without a `relative` gets the one the notation gives it.
pub open spec fn spec_normalize_move(mmf: MoveMoveFormat, pos: PositionView, correct_color: bool, infer_relative: bool)
    -> Result<(MoveMoveFormat, PieceMove), NormFault>
{
    match spec_norm_color(mmf, pos, correct_color) {
        Err(e) => Err(e),
        Ok(m1) => match spec_norm_same(m1, pos) {
            Err(e) => Err(e),
            Ok(m2) => match spec_square_of(m2.to) {
                Err(e) => Err(NormFault::Convert(e)),
                Ok(to) => match spec_norm_from(m2, pos, to) {
                    Err(e) => Err(e),
                    Ok(m3) => match spec_norm_fields(m3, pos, to) {
                        Err(e) => Err(e),
                        Ok(m4) => match spec_move_of(m4) {
                            Err(e) => Err(NormFault::Convert(e)),
                            Ok(mv) => {
                                let m5 = if infer_relative && m4.relative.is_none() {
                                    MoveMoveFormat { relative: spec_infer_relative(pos, mv).spec_only(), ..m4 }
                                } else {
                                    m4
                                };
                                Ok((m5, mv))
                            },
                        },
                    },
                },
            },
        },
    }
}

fn norm_color(m: MoveMoveFormat, pos: &BoardState, correct_color: bool) -> (r: Result<MoveMoveFormat, NormalizeErrorKind>)
    ensures
        match r {
            Ok(v) => spec_norm_color(m, pos@, correct_color) == Ok::<MoveMoveFormat, NormFault>(v),
            Err(e) => spec_norm_color(m, pos@, correct_color) == Err::<MoveMoveFormat, NormFault>(fault_of(e)),
        },
{
    let side = pos.side_to_move();
    if correct_color {
        Ok(MoveMoveFormat { color: side, ..m })
    } else if m.color != side {
        Err(NormalizeErrorKind::InvalidColor)
    } else {
        Ok(m)
    }
}

fn norm_same(m: MoveMoveFormat, pos: &BoardState) -> (r: Result<MoveMoveFormat, NormalizeErrorKind>)
    ensures
        match r {
            Ok(v) => spec_norm_same(m, pos@) == Ok::<MoveMoveFormat, NormFault>(v),
            Err(e) => spec_norm_same(m, pos@) == Err::<MoveMoveFormat, NormFault>(fault_of(e)),
        },
{
    if m.same.is_some() {
        match pos.last_move() {
            None => Err(NormalizeErrorKind::NoLastMove),
            Some(last) => Ok(MoveMoveFormat { to: place_of(last.to()), ..m }),
        }
    } else {
        Ok(m)
    }
}

fn norm_from(m: MoveMoveFormat, pos: &BoardState, to: Square) -> (r: Result<MoveMoveFormat, NormalizeErrorKind>)
    ensures
        match r {
            Ok(v) => spec_norm_from(m, pos@, to) == Ok::<MoveMoveFormat, NormFault>(v),
            Err(e) => spec_norm_from(m, pos@, to) == Err::<MoveMoveFormat, NormFault>(fault_of(e)),
        },
{
    let unstated = match m.from {
        Some(p) => p.x == 0 && p.y == 0,
        None => false,
    };
    if unstated {
        match calculate_from(&m, pos, to) {
            Ok(f) => Ok(MoveMoveFormat { from: f, ..m }),
            Err(e) => Err(e),
        }
    } else {
        Ok(m)
    }
}

fn norm_fields(m: MoveMoveFormat, pos: &BoardState, to: Square) -> (r: Result<MoveMoveFormat, NormalizeErrorKind>)
    ensures
        match r {
            Ok(v) => spec_norm_fields(m, pos@, to) == Ok::<MoveMoveFormat, NormFault>(v),
            Err(e) => spec_norm_fields(m, pos@, to) == Err::<MoveMoveFormat, NormFault>(fault_of(e)),
        },
{
    let pf = match m.from {
        None => return Ok(m),
        Some(pf) => pf,
    };
    let from = match square_of(&pf) {
        Ok(from) => from,
        Err(_) => return Ok(MoveMoveFormat { from: None, ..m }),
    };
    let piece = match pos.piece_at(from) {
        Some(piece) => piece,
        None => return Err(NormalizeErrorKind::NoPieceAt(from)),
    };
    let side = pos.side_to_move();
    let fk = piece.kind;
    let tk = if m.promote == Some(true) { m.piece.promoted() } else { m.piece };
    let same = match pos.last_move() {
        Some(last) => if last.to() == to { Some(true) } else { None },
        None => None,
    };
    let promote = if fk.promoted() != fk && (from.relative_rank(side) <= 3 || to.relative_rank(side) <= 3) {
        Some(fk != tk)
    } else {
        None
    };
    let capture = match pos.piece_at(to) {
        Some(p) => Some(p.kind),
        None => None,
    };
    Ok(MoveMoveFormat { piece: fk, same, promote, capture, ..m })
}

/// Resolves a move against `pos` (see [`spec_normalize_move`]).
pub fn normalize_move(mmf: &MoveMoveFormat, pos: &BoardState, correct_color: bool, infer_relative: bool)
    -> (r: Result<(MoveMoveFormat, PieceMove), NormalizeErrorKind>)
    ensures
        match r {
            Ok(v) => spec_normalize_move(*mmf, pos@, correct_color, infer_relative) == Ok::<(MoveMoveFormat, PieceMove), NormFault>(v),
            Err(e) => spec_normalize_move(*mmf, pos@, correct_color, infer_relative) == Err::<(MoveMoveFormat, PieceMove), NormFault>(fault_of(e)),
        },
{
    let m1 = norm_color(*mmf, pos, correct_color)?;
    let m2 = norm_same(m1, pos)?;
    let to = match square_of(&m2.to) {
        Ok(to) => to,
        Err(e) => return Err(NormalizeErrorKind::Convert(Box::new(e))),
    };
    let m3 = norm_from(m2, pos, to)?;
    let m4 = norm_fields(m3, pos, to)?;
    let mv = match move_of(&m4) {
        Ok(mv) => mv,
        Err(e) => return Err(NormalizeErrorKind::Convert(Box::new(e))),
    };
    if infer_relative && m4.relative.is_none() {
        let rel = infer_relative_from_position(pos, mv).only();
        Ok((MoveMoveFormat { relative: rel, ..m4 }, mv))
    } else {
        Ok((m4, mv))
    }
}


/// The hours of a time, 0 when it states none.
pub open spec fn hours(t: TimeFormat) -> int {
    match t.h {
        Some(h) => h as int,
        None => 0,
    }
}

/// The sum of two times, carried into minutes and hours. Hours past 255 stay
/// at 255 rather than wrap: a total that long is broken input, and a wrapped
/// value would look plausible.
pub open spec fn spec_add_time(a: TimeFormat, b: TimeFormat) -> TimeFormat {
    let total = (hours(a) + hours(b)) * 3600 + (a.m + b.m) * 60 + (a.s + b.s);
    TimeFormat {
        h: Some(if total / 3600 > 255 { 255u16 } else { (total / 3600) as u16 }),
        m: ((total / 60) % 60) as u16,
        s: (total % 60) as u16,
    }
}

/// Adds two times (see [`spec_add_time`]).
pub fn add_timeformat(lhs: &TimeFormat, rhs: &TimeFormat) -> (t: TimeFormat)
    ensures
        t == spec_add_time(*lhs, *rhs),
{
    let lh: u64 = match lhs.h {
        Some(h) => h as u64,
        None => 0,
    };
    let rh: u64 = match rhs.h {
        Some(h) => h as u64,
        None => 0,
    };
    let total: u64 = (lh + rh) * 3600 + (lhs.m as u64 + rhs.m as u64) * 60 + (lhs.s as u64 + rhs.s as u64);
    let hours: u64 = total / 3600;
    let h: u16 = if hours > 255 { 255 } else { hours as u16 };
    TimeFormat { h: Some(h), m: ((total / 60) % 60) as u16, s: (total % 60) as u16 }
}

/// A node's time with its running total filled in from `totals`, the totals
/// so far of each side; `side` made the move.
pub open spec fn node_time(time: Option<Time>, totals: Seq<TimeFormat>, side: Color) -> Option<Time> {
    match time {
        None => None,
        Some(t) => Some(Time { now: t.now, total: spec_add_time(totals[side.spec_index()], t.now) }),
    }
}

/// Each side's running total after a node with `time`.
pub open spec fn next_totals(time: Option<Time>, totals: Seq<TimeFormat>, side: Color) -> Seq<TimeFormat> {
    match time {
        None => totals,
        Some(t) => totals.update(side.spec_index(), spec_add_time(totals[side.spec_index()], t.now)),
    }
}

/// The move a node holds once it is resolved against `pos`: a move that fails
/// to resolve is kept as it was.
pub open spec fn node_move(m: Option<MoveMoveFormat>, pos: PositionView, correct_color: bool, infer_relative: bool) -> Option<MoveMoveFormat> {
    match m {
        None => None,
        Some(mmf) => match spec_normalize_move(mmf, pos, correct_color, infer_relative) {
            Err(_) => Some(mmf),
            Ok((r, _)) => Some(r),
        },
    }
}

/// The position after a node, when the line goes on past it: the same
/// position for a node that holds only comments; none past an outcome, where
/// the record stops saying what the board is; and otherwise when the move
/// resolves and the position can apply it.
pub open spec fn node_next(m: Option<MoveMoveFormat>, special: Option<MoveSpecial>, pos: PositionView, correct_color: bool, infer_relative: bool) -> Option<PositionView> {
    match m {
        None => if special is Some { None } else { Some(pos) },
        Some(mmf) => match spec_normalize_move(mmf, pos, correct_color, infer_relative) {
            Err(_) => None,
            Ok((_, mv)) => spec_make_move(pos, mv),
        },
    }
}

/// What goes wrong at a node, if anything: its move does not resolve, or the
/// position cannot apply it.
pub open spec fn node_err(m: Option<MoveMoveFormat>, pos: PositionView, correct_color: bool, infer_relative: bool) -> Option<NormFault> {
    match m {
        None => None,
        Some(mmf) => match spec_normalize_move(mmf, pos, correct_color, infer_relative) {
            Err(f) => Some(f),
            Ok((_, mv)) => match spec_make_move(pos, mv) {
                None => Some(NormFault::MakeMoveFailed(mv)),
                Some(_) => None,
            },
        },
    }
}

/// The first error along a line of moves played from `pos`, with the ply it
/// happened at (the line's first node being ply 1). A node without a move ends
/// the line; branches do not count.
#[verifier::opaque]
pub open spec fn line_err(moves: Seq<MoveFormat>, pos: PositionView, correct_color: bool, infer_relative: bool) -> Option<(int, NormFault)>
    decreases moves.len(),
{
    if moves.len() == 0 {
        None
    } else {
        match node_err(moves[0].move_, pos, correct_color, infer_relative) {
            Some(f) => Some((1, f)),
            None => match node_next(moves[0].move_, moves[0].special, pos, correct_color, infer_relative) {
                None => None,
                Some(next) => match line_err(moves.drop_first(), next, correct_color, infer_relative) {
                    None => None,
                    Some((k, f)) => Some((k + 1, f)),
                },
            },
        }
    }
}

/// `n` is the node `o` normalized from `pos`, with `totals` the time each side
/// has used so far: its branches normalized (a branch that fails is kept as it
/// was), its running time total filled in, and its move resolved.
pub open spec fn node_rel(o: MoveFormat, n: MoveFormat, pos: PositionView, totals: Seq<TimeFormat>, correct_color: bool, infer_relative: bool) -> bool
    decreases o, 0nat,
{
    &&& forks_rel(o.forks, n.forks, pos, totals, correct_color, infer_relative)
    &&& n.comments == o.comments
    &&& n.special == o.special
    &&& n.time == node_time(o.time, totals, pos.side)
    &&& n.move_ == node_move(o.move_, pos, correct_color, infer_relative)
}

/// `new` is the line `old` normalized from `pos`, with `totals` the time each
/// side has used so far.
///
/// Each node up to the first outcome or the first move that fails is normalized (see
/// [`node_rel`]); the nodes after that are left as they were.
pub open spec fn line_rel(old: Seq<MoveFormat>, new: Seq<MoveFormat>, pos: PositionView, totals: Seq<TimeFormat>, correct_color: bool, infer_relative: bool) -> bool
    decreases old, 0nat,
{
    if old.len() == 0 {
        new.len() == 0
    } else {
        &&& new.len() == old.len()
        &&& node_rel(old[0], new[0], pos, totals, correct_color, infer_relative)
        &&& match node_next(old[0].move_, old[0].special, pos, correct_color, infer_relative) {
            None => new.drop_first() == old.drop_first(),
            Some(next) => line_rel(old.drop_first(), new.drop_first(), next, next_totals(old[0].time, totals, pos.side), correct_color, infer_relative),
        }
    }
}

/// `new` is the branches `old` of a node played from `pos`, each normalized
/// when it can be and kept as it was when it cannot.
pub open spec fn forks_rel(old: Option<Vec<Vec<MoveFormat>>>, new: Option<Vec<Vec<MoveFormat>>>, pos: PositionView, totals: Seq<TimeFormat>, correct_color: bool, infer_relative: bool) -> bool
    decreases old, 0nat,
{
    match old {
        None => new is None,
        Some(o) => match new {
            None => false,
            Some(n) => forks_seq_rel(o@, n@, pos, totals, correct_color, infer_relative),
        },
    }
}

/// One branch normalized when it can be, kept as it was when it cannot.
pub open spec fn fork_rel(old: Seq<MoveFormat>, new: Seq<MoveFormat>, pos: PositionView, totals: Seq<TimeFormat>, correct_color: bool, infer_relative: bool) -> bool
    decreases old, 1nat,
{
    if line_err(old, pos, correct_color, infer_relative) is None {
        line_rel(old, new, pos, totals, correct_color, infer_relative)
    } else {
        new == old
    }
}

/// [`forks_rel`] over a list of branches.
pub open spec fn forks_seq_rel(old: Seq<Vec<MoveFormat>>, new: Seq<Vec<MoveFormat>>, pos: PositionView, totals: Seq<TimeFormat>, correct_color: bool, infer_relative: bool) -> bool
    decreases old, 0nat,
{
    if old.len() == 0 {
        new.len() == 0
    } else {
        &&& new.len() == old.len()
        &&& fork_rel(old[0]@, new[0]@, pos, totals, correct_color, infer_relative)
        &&& forks_seq_rel(old.drop_first(), new.drop_first(), pos, totals, correct_color, infer_relative)
    }
}

proof fn lemma_line_err_step(moves: Seq<MoveFormat>, i: int, pos: PositionView, correct_color: bool, infer_relative: bool)
    requires
        0 <= i < moves.len(),
    ensures
        line_err(moves.skip(i), pos, correct_color, infer_relative) == (match node_err(moves[i].move_, pos, correct_color, infer_relative) {
            Some(f) => Some((1int, f)),
            None => match node_next(moves[i].move_, moves[i].special, pos, correct_color, infer_relative) {
                None => None,
                Some(next) => match line_err(moves.skip(i + 1), next, correct_color, infer_relative) {
                    None => None,
                    Some((k, f)) => Some((k + 1, f)),
                },
            },
        }),
{
    reveal(line_err);
    assert(moves.skip(i).drop_first() =~= moves.skip(i + 1));
    assert(moves.skip(i)[0] == moves[i]);
}

proof fn lemma_line_err_end(moves: Seq<MoveFormat>, pos: PositionView, correct_color: bool, infer_relative: bool)
    ensures
        line_err(moves.skip(moves.len() as int), pos, correct_color, infer_relative) is None,
{
    reveal(line_err);
    assert(moves.skip(moves.len() as int) =~= Seq::<MoveFormat>::empty());
}

proof fn lemma_line_rel_empty(old: Seq<MoveFormat>, new: Seq<MoveFormat>, i: int, pos: PositionView, totals: Seq<TimeFormat>, correct_color: bool, infer_relative: bool)
    requires
        old.len() == new.len(),
        old.len() == i,
    ensures
        line_rel(old.skip(i), new.skip(i), pos, totals, correct_color, infer_relative),
{
    assert(old.skip(i) =~= Seq::<MoveFormat>::empty());
    assert(new.skip(i) =~= Seq::<MoveFormat>::empty());
}

proof fn lemma_line_rel_step(old: Seq<MoveFormat>, new: Seq<MoveFormat>, i: int, pos: PositionView, totals: Seq<TimeFormat>, correct_color: bool, infer_relative: bool)
    requires
        0 <= i < old.len(),
        old.len() == new.len(),
        node_rel(old[i], new[i], pos, totals, correct_color, infer_relative),
        match node_next(old[i].move_, old[i].special, pos, correct_color, infer_relative) {
            None => new.skip(i + 1) == old.skip(i + 1),
            Some(next) => line_rel(old.skip(i + 1), new.skip(i + 1), next, next_totals(old[i].time, totals, pos.side), correct_color, infer_relative),
        },
    ensures
        line_rel(old.skip(i), new.skip(i), pos, totals, correct_color, infer_relative),
{
    assert(old.skip(i).drop_first() =~= old.skip(i + 1));
    assert(new.skip(i).drop_first() =~= new.skip(i + 1));
    assert(old.skip(i)[0] == old[i]);
    assert(new.skip(i)[0] == new[i]);
}

proof fn lemma_forks_empty(old: Seq<Vec<MoveFormat>>, new: Seq<Vec<MoveFormat>>, j: int, pos: PositionView, totals: Seq<TimeFormat>, correct_color: bool, infer_relative: bool)
    requires
        old.len() == new.len(),
        old.len() == j,
    ensures
        forks_seq_rel(old.skip(j), new.skip(j), pos, totals, correct_color, infer_relative),
{
    assert(old.skip(j) =~= Seq::<Vec<MoveFormat>>::empty());
    assert(new.skip(j) =~= Seq::<Vec<MoveFormat>>::empty());
}

proof fn lemma_forks_step(old: Seq<Vec<MoveFormat>>, new: Seq<Vec<MoveFormat>>, j: int, pos: PositionView, totals: Seq<TimeFormat>, correct_color: bool, infer_relative: bool)
    requires
        0 <= j < old.len(),
        old.len() == new.len(),
        fork_rel(old[j]@, new[j]@, pos, totals, correct_color, infer_relative),
        forks_seq_rel(old.skip(j + 1), new.skip(j + 1), pos, totals, correct_color, infer_relative),
    ensures
        forks_seq_rel(old.skip(j), new.skip(j), pos, totals, correct_color, infer_relative),
{
    assert(old.skip(j).drop_first() =~= old.skip(j + 1));
    assert(new.skip(j).drop_first() =~= new.skip(j + 1));
    assert(old.skip(j)[0] == old[j]);
    assert(new.skip(j)[0] == new[j]);
}

/// Whether the line normalizes from `pos`, found without changing it.
fn line_check(moves: &Vec<MoveFormat>, pos: &BoardState, correct_color: bool, infer_relative: bool) -> (ok: bool)
    ensures
        ok == (line_err(moves@, pos@, correct_color, infer_relative) is None),
{
    let mut p = *pos;
    let mut i: usize = 0;
    assert(moves@.skip(0) =~= moves@);
    while i < moves.len()
        invariant
            i <= moves@.len(),
            (line_err(moves@, pos@, correct_color, infer_relative) is None)
                == (line_err(moves@.skip(i as int), p@, correct_color, infer_relative) is None),
        decreases moves@.len() - i,
    {
        proof { lemma_line_err_step(moves@, i as int, p@, correct_color, infer_relative); }
        match moves[i].move_ {
            None => if moves[i].special.is_some() {
                return true;
            },
            Some(mmf) => match normalize_move(&mmf, &p, correct_color, infer_relative) {
                Err(_) => return false,
                Ok((_, mv)) => {
                    if p.make_move(mv).is_none() {
                        return false;
                    }
                },
            },
        }
        i = i + 1;
    }
    proof { lemma_line_err_end(moves@, p@, correct_color, infer_relative); }
    true
}

/// A node's time with its running total filled in, and the totals after it.
fn step_time(time: Option<Time>, totals: [TimeFormat; 2], side: Color) -> (r: (Option<Time>, [TimeFormat; 2]))
    ensures
        r.0 == node_time(time, totals@, side),
        r.1@ == next_totals(time, totals@, side),
{
    match time {
        None => (None, totals),
        Some(t) => {
            let mut next = totals;
            let total = add_timeformat(&totals[side.index()], &t.now);
            next[side.index()] = total;
            (Some(Time { now: t.now, total }), next)
        },
    }
}

/// Normalizes the nodes of `moves` from index `i` on, the first of them
/// played from `pos`. The error comes with the index of its node plus one.
fn normalize_from(moves: &mut Vec<MoveFormat>, i: usize, pos: BoardState, totals: [TimeFormat; 2], correct_color: bool, infer_relative: bool)
    -> (r: Option<(usize, NormalizeErrorKind)>)
    requires
        i <= old(moves)@.len(),
    ensures
        final(moves)@.len() == old(moves)@.len(),
        final(moves)@.take(i as int) == old(moves)@.take(i as int),
        line_rel(old(moves)@.skip(i as int), final(moves)@.skip(i as int), pos@, totals@, correct_color, infer_relative),
        match r {
            None => line_err(old(moves)@.skip(i as int), pos@, correct_color, infer_relative) is None,
            Some((k, e)) => line_err(old(moves)@.skip(i as int), pos@, correct_color, infer_relative) == Some(((k - i) as int, fault_of(e))),
        },
    decreases old(moves)@.skip(i as int), 2nat,
{
    let ghost old_moves = moves@;
    if i >= moves.len() {
        proof {
            lemma_line_rel_empty(old_moves, old_moves, i as int, pos@, totals@, correct_color, infer_relative);
            lemma_line_err_end(old_moves, pos@, correct_color, infer_relative);
            assert(old_moves.skip(i as int) =~= old_moves.skip(old_moves.len() as int));
        }
        return None;
    }
    proof { lemma_line_err_step(old_moves, i as int, pos@, correct_color, infer_relative); }
    let node = moves.remove(i);
    let ghost old_node = node;
    let MoveFormat { move_, comments, time, special, forks } = node;
    let forks = normalize_node_forks(forks, pos, totals, correct_color, infer_relative, Ghost(old_moves.skip(i as int)));
    let (time, next_t) = step_time(time, totals, pos.side_to_move());
    let (new_move, next, err) = step_move(move_, special, &pos, correct_color, infer_relative);
    moves.insert(i, MoveFormat { move_: new_move, comments, time, special, forks });
    let ghost mid = moves@;
    proof {
        lemma_rest(old_moves, mid, i as int);
        assert(node_rel(old_node, mid[i as int], pos@, totals@, correct_color, infer_relative));
    }
    if err.is_some() {
        proof { lemma_line_rel_step(old_moves, mid, i as int, pos@, totals@, correct_color, infer_relative); }
        return match err {
            Some(e) => Some((i + 1, e)),
            None => None,
        };
    }
    match next {
        None => {
            proof { lemma_line_rel_step(old_moves, mid, i as int, pos@, totals@, correct_color, infer_relative); }
            None
        },
        Some(next) => {
            proof {
                assert(old_moves.skip(i as int).drop_first() =~= old_moves.skip(i + 1));
                assert(decreases_to!(old_moves.skip(i as int) => old_moves.skip(i + 1)));
            }
            let r = normalize_from(moves, i + 1, next, next_t, correct_color, infer_relative);
            proof {
                assert(moves@.take(i + 1) == mid.take(i + 1));
                assert(moves@[i as int] == moves@.take(i + 1)[i as int]);
                assert(moves@.take(i as int) =~= mid.take(i + 1).take(i as int));
                lemma_line_rel_step(old_moves, moves@, i as int, pos@, totals@, correct_color, infer_relative);
            }
            r
        },
    }
}

/// A node's move resolved against `pos`, the position after it when the line
/// goes on, and what went wrong if anything did.
fn step_move(m: Option<MoveMoveFormat>, special: Option<MoveSpecial>, pos: &BoardState, correct_color: bool, infer_relative: bool)
    -> (r: (Option<MoveMoveFormat>, Option<BoardState>, Option<NormalizeErrorKind>))
    ensures
        r.0 == node_move(m, pos@, correct_color, infer_relative),
        match r.1 {
            None => node_next(m, special, pos@, correct_color, infer_relative) is None,
            Some(p) => node_next(m, special, pos@, correct_color, infer_relative) == Some(p@),
        },
        match r.2 {
            None => node_err(m, pos@, correct_color, infer_relative) is None,
            Some(e) => node_err(m, pos@, correct_color, infer_relative) == Some(fault_of(e)),
        },
{
    match m {
        None => (None, if special.is_some() { None } else { Some(*pos) }, None),
        Some(mmf) => match normalize_move(&mmf, pos, correct_color, infer_relative) {
            Err(e) => (Some(mmf), None, Some(e)),
            Ok((r, mv)) => {
                let mut next = *pos;
                if next.make_move(mv).is_none() {
                    (Some(r), None, Some(NormalizeErrorKind::MakeMoveFailed(mv)))
                } else {
                    (Some(r), Some(next), None)
                }
            },
        },
    }
}

/// A node's branches normalized from `pos` (see [`forks_rel`]).
fn normalize_node_forks(forks: Option<Vec<Vec<MoveFormat>>>, pos: BoardState, totals: [TimeFormat; 2], correct_color: bool, infer_relative: bool, line: Ghost<Seq<MoveFormat>>)
    -> (r: Option<Vec<Vec<MoveFormat>>>)
    requires
        line@.len() > 0,
        line@[0].forks == forks,
    ensures
        forks_rel(forks, r, pos@, totals@, correct_color, infer_relative),
    decreases line@, 1nat,
{
    match forks {
        None => {
            assert(forks is None);
            let r: Option<Vec<Vec<MoveFormat>>> = None;
            assert(forks_rel(forks, r, pos@, totals@, correct_color, infer_relative)) by {
                reveal_with_fuel(forks_rel, 1);
            }
            r
        },
        Some(fs) => {
            let mut fs = fs;
            let ghost old_fs = fs@;
            proof {
                broadcast use vstd::std_specs::vec::axiom_vec_decreases_to_view;
                assert(old_fs.skip(0) =~= old_fs);
                assert(decreases_to!(line@ => line@[0]));
            }
            normalize_forks(&mut fs, 0, pos, totals, correct_color, infer_relative);
            assert(fs@.skip(0) =~= fs@);
            Some(fs)
        },
    }
}

proof fn lemma_rest(old_moves: Seq<MoveFormat>, new_moves: Seq<MoveFormat>, i: int)
    requires
        0 <= i < old_moves.len(),
        new_moves == old_moves.remove(i).insert(i, new_moves[i]),
    ensures
        new_moves.len() == old_moves.len(),
        new_moves.take(i) == old_moves.take(i),
        new_moves.skip(i + 1) == old_moves.skip(i + 1),
{
    assert(new_moves.take(i) =~= old_moves.take(i));
    assert(new_moves.skip(i + 1) =~= old_moves.skip(i + 1));
}

/// Normalizes each branch of `fs` from index `j` on that normalizes without an
/// error, played from `pos`; the others are kept as they were.
fn normalize_forks(fs: &mut Vec<Vec<MoveFormat>>, j: usize, pos: BoardState, totals: [TimeFormat; 2], correct_color: bool, infer_relative: bool)
    requires
        j <= old(fs)@.len(),
    ensures
        final(fs)@.len() == old(fs)@.len(),
        final(fs)@.take(j as int) == old(fs)@.take(j as int),
        forks_seq_rel(old(fs)@.skip(j as int), final(fs)@.skip(j as int), pos@, totals@, correct_color, infer_relative),
    decreases old(fs)@.skip(j as int), 1nat,
{
    let ghost old_fs = fs@;
    if j >= fs.len() {
        proof { lemma_forks_empty(old_fs, old_fs, j as int, pos@, totals@, correct_color, infer_relative); }
        return;
    }
    let f = fs.remove(j);
    let f = normalize_fork(f, pos, totals, correct_color, infer_relative, Ghost(old_fs.skip(j as int)));
    fs.insert(j, f);
    let ghost mid = fs@;
    proof {
        assert(mid.skip(j + 1) =~= old_fs.skip(j + 1));
        assert(mid.take(j as int) =~= old_fs.take(j as int));
        assert(old_fs.skip(j as int).drop_first() =~= old_fs.skip(j + 1));
        assert(decreases_to!(old_fs.skip(j as int) => old_fs.skip(j + 1)));
    }
    normalize_forks(fs, j + 1, pos, totals, correct_color, infer_relative);
    proof {
        assert(fs@.take(j + 1) == mid.take(j + 1));
        assert(fs@[j as int] == fs@.take(j + 1)[j as int]);
        assert(fs@.take(j as int) =~= mid.take(j + 1).take(j as int));
        lemma_forks_step(old_fs, fs@, j as int, pos@, totals@, correct_color, infer_relative);
    }
}

/// One branch, normalized from `pos` when it normalizes without an error and
/// kept as it was when it does not.
fn normalize_fork(f: Vec<MoveFormat>, pos: BoardState, totals: [TimeFormat; 2], correct_color: bool, infer_relative: bool, rest: Ghost<Seq<Vec<MoveFormat>>>)
    -> (r: Vec<MoveFormat>)
    requires
        rest@.len() > 0,
        rest@[0] == f,
    ensures
        fork_rel(f@, r@, pos@, totals@, correct_color, infer_relative),
    decreases rest@, 0nat,
{
    let mut f = f;
    let ghost old_f = f@;
    if line_check(&f, &pos, correct_color, infer_relative) {
        proof {
            broadcast use vstd::std_specs::vec::axiom_vec_decreases_to_view;
            assert(old_f.skip(0) =~= old_f);
            assert(decreases_to!(rest@ => rest@[0]));
        }
        let _ = normalize_from(&mut f, 0, pos, totals, correct_color, infer_relative);
        assert(f@.skip(0) =~= f@);
    }
    f
}

/// Normalizes a line of moves played from `pos`, with `totals` the time each
/// side has used before it (see [`line_rel`]). The error names the failing
/// node by its index in `moves` plus one, which is its ply when `moves` is a
/// record's moves after the starting position's slot.
pub fn normalize_moves(moves: &mut Vec<MoveFormat>, pos: BoardState, totals: [TimeFormat; 2], correct_color: bool, infer_relative: bool)
    -> (r: Result<(), NormalizeError>)
    ensures
        line_rel(old(moves)@, final(moves)@, pos@, totals@, correct_color, infer_relative),
        r is Ok <==> line_err(old(moves)@, pos@, correct_color, infer_relative) is None,
        r matches Err(e) ==> line_err(old(moves)@, pos@, correct_color, infer_relative) == Some((e.ply as int, fault_of(e.kind))),
{
    let ghost old_moves = moves@;
    let r = normalize_from(moves, 0, pos, totals, correct_color, infer_relative);
    assert(old_moves.skip(0) =~= old_moves);
    assert(moves@.skip(0) =~= moves@);
    match r {
        None => Ok(()),
        Some((k, e)) => Err(NormalizeError::at(k, e)),
    }
}


/// Whether a spelled-out position is exactly where `preset` starts: its board,
/// its side to move, and nothing in either hand.
pub open spec fn matches_preset(d: StateFormat, preset: Preset) -> bool {
    &&& preset != Preset::PresetOther
    &&& board_is(d.board, |f: int, r: int| preset_piece(preset, f, r))
    &&& d.color == spec_side_to_move(preset)
    &&& d.hands@[0] == Hand::spec_empty()
    &&& d.hands@[1] == Hand::spec_empty()
}

/// The first preset of the handicap table, from row `i` on, that `d` is.
pub open spec fn preset_from(d: StateFormat, i: int) -> Option<Preset>
    decreases 16 - i,
{
    if i < 0 || i >= 16 {
        None
    } else if matches_preset(d, table_preset(i)) {
        Some(table_preset(i))
    } else {
        preset_from(d, i + 1)
    }
}

/// `initial` with a spelled-out position that is a named preset's start
/// replaced by that preset.
pub open spec fn spec_normalize_initial(initial: Option<Initial>) -> Option<Initial> {
    match initial {
        Some(Initial { preset: _, data: Some(d) }) => match preset_from(d, 0) {
            Some(p) => Some(Initial { preset: p, data: None }),
            None => initial,
        },
        _ => initial,
    }
}

fn matches_preset_exec(d: &StateFormat, preset: Preset) -> (b: bool)
    requires
        preset != Preset::PresetOther,
    ensures
        b == matches_preset(*d, preset),
{
    let board = match crate::handicap::board(preset) {
        Some(b) => b,
        None => return false,
    };
    if d.color != crate::handicap::side_to_move(preset) {
        return false;
    }
    if d.hands[0] != Hand::empty() || d.hands[1] != Hand::empty() {
        return false;
    }
    let mut x: usize = 0;
    while x < 9
        invariant
            x <= 9,
            board_is(board, |f: int, r: int| preset_piece(preset, f, r)),
            forall|i: int, j: int| 0 <= i < x && 0 <= j < 9 ==> #[trigger] d.board@[i]@[j] == board@[i]@[j],
        decreases 9 - x,
    {
        let mut y: usize = 0;
        while y < 9
            invariant
                x < 9,
                y <= 9,
                board_is(board, |f: int, r: int| preset_piece(preset, f, r)),
                forall|i: int, j: int| 0 <= i < x && 0 <= j < 9 ==> #[trigger] d.board@[i]@[j] == board@[i]@[j],
                forall|j: int| 0 <= j < y ==> #[trigger] d.board@[x as int]@[j] == board@[x as int]@[j],
            decreases 9 - y,
        {
            if d.board[x][y] != board[x][y] {
                assert(d.board@[x as int]@[y as int] != preset_piece(preset, x + 1, y + 1));
                return false;
            }
            y = y + 1;
        }
        x = x + 1;
    }
    assert forall|i: int, j: int| 0 <= i < 9 && 0 <= j < 9 implies #[trigger] d.board@[i]@[j] == preset_piece(preset, i + 1, j + 1) by {
        assert(board@[i]@[j] == preset_piece(preset, i + 1, j + 1));
    }
    true
}

/// Folds a position that is a named handicap's start back into its preset
/// (see [`spec_normalize_initial`]). The table is walked in its order, the
/// even game first.
pub fn normalize_initial(jkf: &mut JsonKifuFormat)
    ensures
        final(jkf).initial == spec_normalize_initial(old(jkf).initial),
        final(jkf).header == old(jkf).header,
        final(jkf).moves == old(jkf).moves,
{
    let d = match &jkf.initial {
        Some(initial) => match &initial.data {
            Some(d) => *d,
            None => return,
        },
        None => return,
    };
    let table = crate::handicap::handicaps();
    let mut i: usize = 0;
    while i < 16
        invariant
            i <= 16,
            table@.len() == 16,
            forall|k: int| 0 <= k < 16 ==> #[trigger] table@[k].preset == table_preset(k),
            preset_from(d, 0) == preset_from(d, i as int),
            jkf.initial == old(jkf).initial,
            jkf.header == old(jkf).header,
            jkf.moves == old(jkf).moves,
            old(jkf).initial matches Some(ii) && ii.data == Some(d),
        decreases 16 - i,
    {
        let preset = table[i].preset;
        if matches_preset_exec(&d, preset) {
            jkf.initial = Some(Initial { preset, data: None });
            return;
        }
        i = i + 1;
    }
}

/// Whether the moves' colors are to be flipped: a handicap record whose first
/// move is marked Black was written with the sides the wrong way round.
pub open spec fn colors_flipped(initial: Option<Initial>, moves: Seq<MoveFormat>) -> bool {
    &&& initial matches Some(i)
    &&& i.preset != Preset::PresetHirate
    &&& i.preset != Preset::PresetOther
    &&& moves.len() > 1
    &&& moves[1].move_ matches Some(m)
    &&& m.color == Color::Black
}

/// A node with the color of its move, if it has one, flipped.
pub open spec fn flip_node(n: MoveFormat) -> MoveFormat {
    MoveFormat {
        move_: match n.move_ {
            Some(m) => Some(MoveMoveFormat { color: m.color.spec_flip(), ..m }),
            None => None,
        },
        ..n
    }
}

/// The moves with the color of every move after the starting slot flipped.
pub open spec fn flip_colors(moves: Seq<MoveFormat>) -> Seq<MoveFormat> {
    Seq::new(moves.len(), |i: int| if i == 0 { moves[0] } else { flip_node(moves[i]) })
}

fn flip_node_exec(n: MoveFormat) -> (r: MoveFormat)
    ensures
        r == flip_node(n),
{
    let MoveFormat { move_, comments, time, special, forks } = n;
    let move_ = match move_ {
        Some(m) => Some(MoveMoveFormat { color: m.color.flip(), ..m }),
        None => None,
    };
    MoveFormat { move_, comments, time, special, forks }
}

fn flip_colors_exec(moves: &mut Vec<MoveFormat>)
    ensures
        final(moves)@ == flip_colors(old(moves)@),
{
    let ghost old_moves = moves@;
    let mut i: usize = 1;
    while i < moves.len()
        invariant
            1 <= i,
            moves@.len() == old_moves.len(),
            i <= moves@.len() || old_moves.len() == 0,
            forall|k: int| 0 <= k < moves@.len() ==> #[trigger] moves@[k] == (if 0 < k < i { flip_node(old_moves[k]) } else { old_moves[k] }),
        decreases moves@.len() - i,
    {
        let n = moves.remove(i);
        let f = flip_node_exec(n);
        moves.insert(i, f);
        i = i + 1;
    }
    assert(moves@ =~= flip_colors(old_moves));
}

/// The starting slot and a line normalized from `start`: the line is `moves`
/// after slot 0 (see [`line_rel`]).
pub open spec fn record_rel(old: Seq<MoveFormat>, new: Seq<MoveFormat>, start: PositionView, correct_color: bool, infer_relative: bool) -> bool {
    if old.len() == 0 {
        new.len() == 0
    } else {
        &&& new.len() == old.len()
        &&& new[0] == old[0]
        &&& line_rel(old.drop_first(), new.drop_first(), start, seq![TimeFormat::spec_default(), TimeFormat::spec_default()], correct_color, infer_relative)
    }
}

/// The first error of a record's main line, by ply.
pub open spec fn record_err(moves: Seq<MoveFormat>, start: PositionView, correct_color: bool, infer_relative: bool) -> Option<(int, NormFault)> {
    if moves.len() == 0 {
        None
    } else {
        line_err(moves.drop_first(), start, correct_color, infer_relative)
    }
}

/// The position a record's (folded) `initial` starts from.
pub open spec fn start_of(initial: Option<Initial>) -> Result<PositionView, ConvertError> {
    match initial {
        None => Ok(spec_startpos()),
        Some(i) => spec_initial_position(i),
    }
}

/// `after` is `before` normalized as [`JsonKifuFormat::normalize_with_options`]
/// does it with `correct_color` and `infer_relative`, and `r` is what that
/// reports.
pub open spec fn normalized_with(before: JsonKifuFormat, after: JsonKifuFormat, r: Result<(), NormalizeError>, correct_color: bool, infer_relative: bool) -> bool {
    let initial = spec_normalize_initial(before.initial);
    let moves = if colors_flipped(initial, before.moves@) { flip_colors(before.moves@) } else { before.moves@ };
    &&& after.header == before.header
    &&& after.initial == initial
    &&& match start_of(initial) {
        Err(e) => {
            &&& after.moves@ == moves
            &&& r == Err::<(), NormalizeError>(NormalizeError { ply: 0, kind: NormalizeErrorKind::Convert(Box::new(e)) })
        },
        Ok(start) => {
            &&& record_rel(moves, after.moves@, start, correct_color, infer_relative)
            &&& (r is Ok <==> record_err(moves, start, correct_color, infer_relative) is None)
            &&& (r matches Err(e) ==> record_err(moves, start, correct_color, infer_relative) == Some((e.ply as int, fault_of(e.kind))))
        },
    }
}

/// `after` is `before` normalized as [`JsonKifuFormat::normalize`] does it,
/// and `r` is what that reports.
pub open spec fn normalized(before: JsonKifuFormat, after: JsonKifuFormat, r: Result<(), NormalizeError>) -> bool {
    normalized_with(before, after, r, false, true)
}

impl JsonKifuFormat {
    /// Normalizes the record.
    ///
    /// A spelled-out starting position that is a named handicap's start is
    /// folded into its preset. A handicap record whose first move is marked
    /// Black has every move's color flipped. Then the moves after the starting
    /// slot are normalized from the starting position (see [`line_rel`]): with
    /// `correct_color` each move's color is taken from the side to move, else a
    /// color that disagrees is an error; with `infer_relative` each move
    /// without a `relative` gets the one the notation gives it. A branch that
    /// does not normalize is kept as it was.
    ///
    /// An error names the ply it happened at; ply 0 is the starting position.
    pub fn normalize_with_options(&mut self, correct_color: bool, infer_relative: bool) -> (r: Result<(), NormalizeError>)
        ensures
            normalized_with(*old(self), *final(self), r, correct_color, infer_relative),
    {
        normalize_initial(self);
        let flip = match &self.initial {
            Some(initial) => {
                initial.preset != Preset::PresetHirate && initial.preset != Preset::PresetOther
                    && self.moves.len() > 1
                    && match &self.moves[1].move_ {
                        Some(m) => m.color == Color::Black,
                        None => false,
                    }
            },
            None => false,
        };
        if flip {
            flip_colors_exec(&mut self.moves);
        }
        let ghost moves = self.moves@;
        let pos = match &self.initial {
            Some(initial) => match BoardState::from_initial(initial) {
                Ok(pos) => pos,
                Err(e) => return Err(NormalizeError::at(0, NormalizeErrorKind::Convert(Box::new(e)))),
            },
            None => BoardState::startpos(),
        };
        if self.moves.len() == 0 {
            return Ok(());
        }
        let mut rest = self.moves.split_off(1);
        assert(rest@ =~= moves.drop_first());
        let zero = [TimeFormat::default(), TimeFormat::default()];
        assert(zero@ =~= seq![TimeFormat::spec_default(), TimeFormat::spec_default()]);
        let r = normalize_moves(&mut rest, pos, zero, correct_color, infer_relative);
        let ghost done = rest@;
        self.moves.append(&mut rest);
        assert(self.moves@.drop_first() =~= done);
        r
    }

    /// Normalizes the record with `relative` inferred for every move (see
    /// [`JsonKifuFormat::normalize_with_options`]). `moves` holds at least
    /// the starting position's node.
    pub fn normalize_with_color_correction(&mut self, correct_color: bool) -> (r: Result<(), NormalizeError>)
        requires
            old(self).moves.len() >= 1,
        ensures
            normalized_with(*old(self), *final(self), r, correct_color, true),
    {
        self.normalize_with_options(correct_color, true)
    }

    /// Normalizes the record, requiring the moves' colors to be right already
    /// and inferring `relative` for every move (see
    /// [`JsonKifuFormat::normalize_with_options`]). `moves` holds at least
    /// the starting position's node.
    pub fn normalize(&mut self) -> (r: Result<(), NormalizeError>)
        requires
            old(self).moves.len() >= 1,
        ensures
            normalized_with(*old(self), *final(self), r, false, true),
    {
        self.normalize_with_options(false, true)
    }

    /// The position the moves start from, or `None` when `initial` cannot be
    /// turned into one.
    pub fn starting_position(&self) -> (p: Option<BoardState>)
        ensures
            match start_of(self.initial) {
                Ok(v) => p matches Some(p) && p@ == v,
                Err(_) => p is None,
            },
    {
        match &self.initial {
            Some(initial) => match BoardState::from_initial(initial) {
                Ok(p) => Some(p),
                Err(_) => None,
            },
            None => Some(BoardState::startpos()),
        }
    }
}

/// A node's move with `relative` filled in when it has none: the suffix the
/// notation gives it in `pos`. A move with a place off the board is kept.
pub open spec fn fill_move(m: Option<MoveMoveFormat>, pos: PositionView) -> Option<MoveMoveFormat> {
    match m {
        None => None,
        Some(mmf) => match spec_move_of(mmf) {
            Err(_) => Some(mmf),
            Ok(mv) => if mmf.relative is None {
                Some(MoveMoveFormat { relative: spec_infer_relative(pos, mv).spec_only(), ..mmf })
            } else {
                Some(mmf)
            },
        },
    }
}

/// The position after a node when the line goes on past it.
pub open spec fn fill_next(m: Option<MoveMoveFormat>, special: Option<MoveSpecial>, pos: PositionView) -> Option<PositionView> {
    match m {
        None => if special is Some { None } else { Some(pos) },
        Some(mmf) => match spec_move_of(mmf) {
            Err(_) => None,
            Ok(mv) => spec_make_move(pos, mv),
        },
    }
}

/// What goes wrong at a node while filling in `relative`, if anything.
pub open spec fn fill_err(m: Option<MoveMoveFormat>, pos: PositionView) -> Option<NormFault> {
    match m {
        None => None,
        Some(mmf) => match spec_move_of(mmf) {
            Err(e) => Some(NormFault::Convert(e)),
            Ok(mv) => match spec_make_move(pos, mv) {
                None => Some(NormFault::MakeMoveFailed(mv)),
                Some(_) => None,
            },
        },
    }
}

/// The first error filling in `relative` along a line played from `pos`.
pub open spec fn fill_line_err(moves: Seq<MoveFormat>, pos: PositionView) -> Option<(int, NormFault)>
    decreases moves.len(),
{
    if moves.len() == 0 {
        None
    } else {
        match fill_err(moves[0].move_, pos) {
            Some(f) => Some((1, f)),
            None => match fill_next(moves[0].move_, moves[0].special, pos) {
                None => None,
                Some(next) => match fill_line_err(moves.drop_first(), next) {
                    None => None,
                    Some((k, f)) => Some((k + 1, f)),
                },
            },
        }
    }
}

/// `n` is the node `o` with `relative` filled in from `pos`, in its move and
/// in every branch (as far as each branch goes).
pub open spec fn fill_node_rel(o: MoveFormat, n: MoveFormat, pos: PositionView) -> bool
    decreases o, 0nat,
{
    &&& fill_forks_rel(o.forks, n.forks, pos)
    &&& n.comments == o.comments
    &&& n.special == o.special
    &&& n.time == o.time
    &&& n.move_ == fill_move(o.move_, pos)
}

/// `new` is the line `old` with `relative` filled in from `pos`, up to the
/// first outcome or the first move that fails; the nodes after it are left as they
/// were.
pub open spec fn fill_line_rel(old: Seq<MoveFormat>, new: Seq<MoveFormat>, pos: PositionView) -> bool
    decreases old, 0nat,
{
    if old.len() == 0 {
        new.len() == 0
    } else {
        &&& new.len() == old.len()
        &&& fill_node_rel(old[0], new[0], pos)
        &&& match fill_next(old[0].move_, old[0].special, pos) {
            None => new.drop_first() == old.drop_first(),
            Some(next) => fill_line_rel(old.drop_first(), new.drop_first(), next),
        }
    }
}

/// [`fill_line_rel`] for each branch of a node.
pub open spec fn fill_forks_rel(old: Option<Vec<Vec<MoveFormat>>>, new: Option<Vec<Vec<MoveFormat>>>, pos: PositionView) -> bool
    decreases old, 0nat,
{
    match old {
        None => new is None,
        Some(o) => match new {
            None => false,
            Some(n) => fill_forks_seq_rel(o@, n@, pos),
        },
    }
}

/// [`fill_line_rel`] for each branch of a list.
pub open spec fn fill_forks_seq_rel(old: Seq<Vec<MoveFormat>>, new: Seq<Vec<MoveFormat>>, pos: PositionView) -> bool
    decreases old, 0nat,
{
    if old.len() == 0 {
        new.len() == 0
    } else {
        &&& new.len() == old.len()
        &&& fill_line_rel(old[0]@, new[0]@, pos)
        &&& fill_forks_seq_rel(old.drop_first(), new.drop_first(), pos)
    }
}

proof fn lemma_fill_err_step(moves: Seq<MoveFormat>, i: int, pos: PositionView)
    requires
        0 <= i < moves.len(),
    ensures
        fill_line_err(moves.skip(i), pos) == (match fill_err(moves[i].move_, pos) {
            Some(f) => Some((1int, f)),
            None => match fill_next(moves[i].move_, moves[i].special, pos) {
                None => None,
                Some(next) => match fill_line_err(moves.skip(i + 1), next) {
                    None => None,
                    Some((k, f)) => Some((k + 1, f)),
                },
            },
        }),
{
    assert(moves.skip(i).drop_first() =~= moves.skip(i + 1));
    assert(moves.skip(i)[0] == moves[i]);
}

proof fn lemma_fill_line_step(old: Seq<MoveFormat>, new: Seq<MoveFormat>, i: int, pos: PositionView)
    requires
        0 <= i < old.len(),
        old.len() == new.len(),
        fill_node_rel(old[i], new[i], pos),
        match fill_next(old[i].move_, old[i].special, pos) {
            None => new.skip(i + 1) == old.skip(i + 1),
            Some(next) => fill_line_rel(old.skip(i + 1), new.skip(i + 1), next),
        },
    ensures
        fill_line_rel(old.skip(i), new.skip(i), pos),
{
    assert(old.skip(i).drop_first() =~= old.skip(i + 1));
    assert(new.skip(i).drop_first() =~= new.skip(i + 1));
    assert(old.skip(i)[0] == old[i]);
    assert(new.skip(i)[0] == new[i]);
}

proof fn lemma_fill_forks_step(old: Seq<Vec<MoveFormat>>, new: Seq<Vec<MoveFormat>>, j: int, pos: PositionView)
    requires
        0 <= j < old.len(),
        old.len() == new.len(),
        fill_line_rel(old[j]@, new[j]@, pos),
        fill_forks_seq_rel(old.skip(j + 1), new.skip(j + 1), pos),
    ensures
        fill_forks_seq_rel(old.skip(j), new.skip(j), pos),
{
    assert(old.skip(j).drop_first() =~= old.skip(j + 1));
    assert(new.skip(j).drop_first() =~= new.skip(j + 1));
    assert(old.skip(j)[0] == old[j]);
    assert(new.skip(j)[0] == new[j]);
}

fn fill_step(m: Option<MoveMoveFormat>, special: Option<MoveSpecial>, pos: &BoardState) -> (r: (Option<MoveMoveFormat>, Option<BoardState>, Option<NormalizeErrorKind>))
    ensures
        r.0 == fill_move(m, pos@),
        match r.1 {
            None => fill_next(m, special, pos@) is None,
            Some(p) => fill_next(m, special, pos@) == Some(p@),
        },
        match r.2 {
            None => fill_err(m, pos@) is None,
            Some(e) => fill_err(m, pos@) == Some(fault_of(e)),
        },
{
    match m {
        None => (None, if special.is_some() { None } else { Some(*pos) }, None),
        Some(mmf) => match move_of(&mmf) {
            Err(e) => (Some(mmf), None, Some(NormalizeErrorKind::Convert(Box::new(e)))),
            Ok(mv) => {
                let filled = if mmf.relative.is_none() {
                    MoveMoveFormat { relative: infer_relative_from_position(pos, mv).only(), ..mmf }
                } else {
                    mmf
                };
                let mut next = *pos;
                if next.make_move(mv).is_none() {
                    (Some(filled), None, Some(NormalizeErrorKind::MakeMoveFailed(mv)))
                } else {
                    (Some(filled), Some(next), None)
                }
            },
        },
    }
}

/// Fills in `relative` for the nodes of `moves` from index `i` on, the first
/// of them played from `pos`. The error comes with its node's index plus one.
fn fill_from(moves: &mut Vec<MoveFormat>, i: usize, pos: BoardState) -> (r: Option<(usize, NormalizeErrorKind)>)
    requires
        i <= old(moves)@.len(),
    ensures
        final(moves)@.len() == old(moves)@.len(),
        final(moves)@.take(i as int) == old(moves)@.take(i as int),
        fill_line_rel(old(moves)@.skip(i as int), final(moves)@.skip(i as int), pos@),
        match r {
            None => fill_line_err(old(moves)@.skip(i as int), pos@) is None,
            Some((k, e)) => fill_line_err(old(moves)@.skip(i as int), pos@) == Some(((k - i) as int, fault_of(e))),
        },
    decreases old(moves)@.skip(i as int), 2nat,
{
    let ghost old_moves = moves@;
    if i >= moves.len() {
        assert(old_moves.skip(i as int) =~= Seq::<MoveFormat>::empty());
        return None;
    }
    proof { lemma_fill_err_step(old_moves, i as int, pos@); }
    let node = moves.remove(i);
    let ghost old_node = node;
    let MoveFormat { move_, comments, time, special, forks } = node;
    let forks = fill_node_forks(forks, pos, Ghost(old_moves.skip(i as int)));
    let (new_move, next, err) = fill_step(move_, special, &pos);
    moves.insert(i, MoveFormat { move_: new_move, comments, time, special, forks });
    let ghost mid = moves@;
    proof {
        lemma_rest(old_moves, mid, i as int);
        assert(fill_node_rel(old_node, mid[i as int], pos@));
    }
    if err.is_some() {
        proof { lemma_fill_line_step(old_moves, mid, i as int, pos@); }
        return match err {
            Some(e) => Some((i + 1, e)),
            None => None,
        };
    }
    match next {
        None => {
            proof { lemma_fill_line_step(old_moves, mid, i as int, pos@); }
            None
        },
        Some(next) => {
            proof {
                assert(old_moves.skip(i as int).drop_first() =~= old_moves.skip(i + 1));
                assert(decreases_to!(old_moves.skip(i as int) => old_moves.skip(i + 1)));
            }
            let r = fill_from(moves, i + 1, next);
            proof {
                assert(moves@.take(i + 1) == mid.take(i + 1));
                assert(moves@[i as int] == moves@.take(i + 1)[i as int]);
                assert(moves@.take(i as int) =~= mid.take(i + 1).take(i as int));
                lemma_fill_line_step(old_moves, moves@, i as int, pos@);
            }
            r
        },
    }
}

fn fill_node_forks(forks: Option<Vec<Vec<MoveFormat>>>, pos: BoardState, line: Ghost<Seq<MoveFormat>>) -> (r: Option<Vec<Vec<MoveFormat>>>)
    requires
        line@.len() > 0,
        line@[0].forks == forks,
    ensures
        fill_forks_rel(forks, r, pos@),
    decreases line@, 1nat,
{
    match forks {
        None => None,
        Some(fs) => {
            let mut fs = fs;
            let ghost old_fs = fs@;
            proof {
                broadcast use vstd::std_specs::vec::axiom_vec_decreases_to_view;
                assert(old_fs.skip(0) =~= old_fs);
                assert(decreases_to!(line@ => line@[0]));
            }
            fill_forks(&mut fs, 0, pos);
            assert(fs@.skip(0) =~= fs@);
            Some(fs)
        },
    }
}

fn fill_forks(fs: &mut Vec<Vec<MoveFormat>>, j: usize, pos: BoardState)
    requires
        j <= old(fs)@.len(),
    ensures
        final(fs)@.len() == old(fs)@.len(),
        final(fs)@.take(j as int) == old(fs)@.take(j as int),
        fill_forks_seq_rel(old(fs)@.skip(j as int), final(fs)@.skip(j as int), pos@),
    decreases old(fs)@.skip(j as int), 1nat,
{
    let ghost old_fs = fs@;
    if j >= fs.len() {
        assert(old_fs.skip(j as int) =~= Seq::<Vec<MoveFormat>>::empty());
        return;
    }
    let f = fs.remove(j);
    let f = fill_fork(f, pos, Ghost(old_fs.skip(j as int)));
    fs.insert(j, f);
    let ghost mid = fs@;
    proof {
        assert(mid.skip(j + 1) =~= old_fs.skip(j + 1));
        assert(mid.take(j as int) =~= old_fs.take(j as int));
        assert(old_fs.skip(j as int).drop_first() =~= old_fs.skip(j + 1));
        assert(decreases_to!(old_fs.skip(j as int) => old_fs.skip(j + 1)));
    }
    fill_forks(fs, j + 1, pos);
    proof {
        assert(fs@.take(j + 1) == mid.take(j + 1));
        assert(fs@[j as int] == fs@.take(j + 1)[j as int]);
        assert(fs@.take(j as int) =~= mid.take(j + 1).take(j as int));
        lemma_fill_forks_step(old_fs, fs@, j as int, pos@);
    }
}

fn fill_fork(f: Vec<MoveFormat>, pos: BoardState, rest: Ghost<Seq<Vec<MoveFormat>>>) -> (r: Vec<MoveFormat>)
    requires
        rest@.len() > 0,
        rest@[0] == f,
    ensures
        fill_line_rel(f@, r@, pos@),
    decreases rest@, 0nat,
{
    let mut f = f;
    let ghost old_f = f@;
    proof {
        broadcast use vstd::std_specs::vec::axiom_vec_decreases_to_view;
        assert(old_f.skip(0) =~= old_f);
        assert(decreases_to!(rest@ => rest@[0]));
    }
    let _ = fill_from(&mut f, 0, pos);
    assert(f@.skip(0) =~= f@);
    f
}

/// Fills in `relative` along a line played from `pos` and along each of its
/// branches (see [`fill_line_rel`]). The error names the failing node by its
/// index in `moves` plus one.
pub fn populate_relative_moves(moves: &mut Vec<MoveFormat>, pos: BoardState) -> (r: Result<(), NormalizeError>)
    ensures
        fill_line_rel(old(moves)@, final(moves)@, pos@),
        r is Ok <==> fill_line_err(old(moves)@, pos@) is None,
        r matches Err(e) ==> fill_line_err(old(moves)@, pos@) == Some((e.ply as int, fault_of(e.kind))),
{
    let ghost old_moves = moves@;
    let r = fill_from(moves, 0, pos);
    assert(old_moves.skip(0) =~= old_moves);
    assert(moves@.skip(0) =~= moves@);
    match r {
        None => Ok(()),
        Some((k, e)) => Err(NormalizeError::at(k, e)),
    }
}

impl JsonKifuFormat {
    /// Fills in `relative` (左/右/上/...) for every move that has none,
    /// replaying the record from its starting position. A branch is filled in
    /// as far as it can be replayed; an error on the main line names its ply,
    /// ply 0 being the starting position.
    pub fn populate_relative(&mut self) -> (r: Result<(), NormalizeError>)
        ensures
            final(self).header == old(self).header,
            final(self).initial == old(self).initial,
            match start_of(old(self).initial) {
                Err(e) => {
                    &&& final(self).moves == old(self).moves
                    &&& r == Err::<(), NormalizeError>(NormalizeError { ply: 0, kind: NormalizeErrorKind::Convert(Box::new(e)) })
                },
                Ok(start) => if old(self).moves@.len() == 0 {
                    final(self).moves@.len() == 0 && r is Ok
                } else {
                    &&& final(self).moves@.len() == old(self).moves@.len()
                    &&& final(self).moves@[0] == old(self).moves@[0]
                    &&& fill_line_rel(old(self).moves@.drop_first(), final(self).moves@.drop_first(), start)
                    &&& (r is Ok <==> fill_line_err(old(self).moves@.drop_first(), start) is None)
                    &&& (r matches Err(e) ==> fill_line_err(old(self).moves@.drop_first(), start) == Some((e.ply as int, fault_of(e.kind))))
                },
            },
    {
        let pos = match &self.initial {
            Some(initial) => match BoardState::from_initial(initial) {
                Ok(pos) => pos,
                Err(e) => return Err(NormalizeError::at(0, NormalizeErrorKind::Convert(Box::new(e)))),
            },
            None => BoardState::startpos(),
        };
        if self.moves.len() == 0 {
            return Ok(());
        }
        let ghost moves = self.moves@;
        let mut rest = self.moves.split_off(1);
        assert(rest@ =~= moves.drop_first());
        let r = populate_relative_moves(&mut rest, pos);
        let ghost done = rest@;
        self.moves.append(&mut rest);
        assert(self.moves@.drop_first() =~= done);
        r
    }
}
} // verus!
