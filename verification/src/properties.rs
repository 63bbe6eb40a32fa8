//! Properties of the library as a whole: what one operation undoes of another,
//! what a format keeps of a record, and what every normalized move satisfies.

pub mod header_block;
pub mod move_line;
pub mod header_keys;
pub mod relative_fill;
pub mod normalizing;
pub mod branches;
pub mod moves;

use vstd::prelude::*;
use crate::converter::kif::{kif_special_word, ply_at};
use crate::converter::kakinoki::one_line;
use crate::handicap::{spec_side_to_move, spec_side_to_move_at_ply};
use crate::jkf::{Color, Hand, Initial, Kind, MoveFormat, MoveMoveFormat, MoveSpecial, Preset, can_promote, is_promoted, spec_csa_word, spec_from_ki2_phrase, spec_from_kif_word, spec_ki2_phrase, spec_promoted, spec_unpromoted};
use crate::normalizer::{colors_flipped, flip_colors, normalized_with, forks_seq_rel, line_err, line_rel, matches_preset, node_move, preset_from, spec_normalize_initial, spec_normalize_move, start_of};
use crate::jkf::{Relative, TimeFormat};
use crate::handicap::{hirate_piece, is_removed, preset_piece, spec_removed, table_preset};
use crate::position::{flat_board_of, lemma_flat_board_of};
use crate::jkf::StateFormat;
use crate::jkf::JsonKifuFormat;
use crate::error::NormalizeError;

use crate::text::{seq_ends_with, seq_starts_with};
use crate::position::{PieceMove, PositionView, spec_make_move, spec_move_of};

verus! {

/// What a KIF outcome word reads back as: KIF has no word for a declared draw
/// (持将棋 stands in), none for 待った or エラー (中断 stands in), and its 反則勝ち
/// names the offender only relative to the side to move.
pub open spec fn kif_reading(sp: MoveSpecial, side_to_move: Color) -> MoveSpecial {
    match sp {
        MoveSpecial::SpecialHikiwake => MoveSpecial::SpecialJishogi,
        MoveSpecial::SpecialMatta | MoveSpecial::SpecialError => MoveSpecial::SpecialChudan,
        MoveSpecial::SpecialIllegalActionBlack | MoveSpecial::SpecialIllegalActionWhite => match side_to_move {
            Color::Black => MoveSpecial::SpecialIllegalActionWhite,
            Color::White => MoveSpecial::SpecialIllegalActionBlack,
        },
        _ => sp,
    }
}

/// The word KIF writes for an outcome reads back as that outcome, up to what
/// KIF cannot say (see [`kif_reading`]).
pub proof fn kif_outcome_reads_back(sp: MoveSpecial, side_to_move: Color)
    ensures
        spec_from_kif_word(kif_special_word(sp), side_to_move) == Some(kif_reading(sp, side_to_move)),
{
    reveal_strlit("投了");
    reveal_strlit("中断");
    reveal_strlit("千日手");
    reveal_strlit("切れ負け");
    reveal_strlit("反則負け");
    reveal_strlit("反則勝ち");
    reveal_strlit("持将棋");
    reveal_strlit("入玉勝ち");
    reveal_strlit("詰み");
    reveal_strlit("不詰");
    let w = kif_special_word(sp);
    assert(w.len() >= 2);
    assert(w == "投了"@ ==> w[0] == '投');
    assert(w == "中断"@ ==> w[0] == '中');
    assert(w == "千日手"@ ==> w[0] == '千');
    assert(w == "切れ負け"@ ==> w[0] == '切');
    assert(w == "反則負け"@ ==> w[0] == '反' && w[2] == '負');
    assert(w == "反則勝ち"@ ==> w[0] == '反' && w[2] == '勝');
    assert(w == "持将棋"@ ==> w[0] == '持');
    assert(w == "入玉勝ち"@ ==> w[0] == '入');
    assert(w == "詰み"@ ==> w[0] == '詰');
    assert(w == "不詰"@ ==> w[0] == '不');
}

/// What a KI2 outcome phrase reads back as: the phrase names the winner
/// outright, so only the draw, 待った and エラー lose anything.
pub open spec fn ki2_reading(sp: MoveSpecial) -> MoveSpecial {
    match sp {
        MoveSpecial::SpecialHikiwake => MoveSpecial::SpecialJishogi,
        MoveSpecial::SpecialMatta | MoveSpecial::SpecialError => MoveSpecial::SpecialChudan,
        _ => sp,
    }
}

/// The phrase KI2 writes for an outcome reads back as that outcome, up to what
/// KI2 cannot say (see [`ki2_reading`]).
pub proof fn ki2_outcome_reads_back(sp: MoveSpecial, side_to_move: Color)
    ensures
        spec_from_ki2_phrase(spec_ki2_phrase(sp, side_to_move), side_to_move) == Some(ki2_reading(sp)),
{
    reveal_strlit("先手");
    reveal_strlit("後手");
    reveal_strlit("の勝ち");
    reveal_strlit("時間切れにより");
    reveal_strlit("時間切れ");
    reveal_strlit("の入玉勝ち");
    reveal_strlit("後手の反則勝ち");
    reveal_strlit("先手の反則勝ち");
    reveal_strlit("の反則負け");
    reveal_strlit("勝ち");
    reveal_strlit("反則勝ち");
    reveal_strlit("反則負け");
    reveal_strlit("入玉勝ち");
    let p = spec_ki2_phrase(sp, side_to_move);
    let (mover, opponent) = match side_to_move {
        Color::Black => ("先手"@, "後手"@),
        Color::White => ("後手"@, "先手"@),
    };
    match sp {
        MoveSpecial::SpecialToryo => {
            assert(p =~= opponent + "の勝ち"@);
            lemma_not_starts(p, "時間切れ"@, 0);
            lemma_not_ends(p, "反則勝ち"@, 0);
            lemma_not_ends(p, "反則負け"@, 0);
            lemma_not_ends(p, "入玉勝ち"@, 0);
            assert(p.subrange(3, 5) =~= "勝ち"@);
        },
        MoveSpecial::SpecialTimeUp => {
            assert(p.subrange(0, 4) =~= "時間切れ"@);
        },
        MoveSpecial::SpecialKachi => {
            assert(p =~= mover + "の入玉勝ち"@);
            lemma_not_starts(p, "時間切れ"@, 0);
            lemma_not_ends(p, "反則勝ち"@, 0);
            lemma_not_ends(p, "反則負け"@, 0);
            assert(p.subrange(3, 7) =~= "入玉勝ち"@);
        },
        MoveSpecial::SpecialIllegalActionBlack => {
            lemma_not_starts(p, "時間切れ"@, 0);
            assert(p.subrange(3, 7) =~= "反則勝ち"@);
            assert(p[0] != "先手の反則勝ち"@[0]);
        },
        MoveSpecial::SpecialIllegalActionWhite => {
            lemma_not_starts(p, "時間切れ"@, 0);
            assert(p.subrange(3, 7) =~= "反則勝ち"@);
        },
        MoveSpecial::SpecialIllegalMove => {
            assert(p =~= mover + "の反則負け"@);
            lemma_not_starts(p, "時間切れ"@, 0);
            lemma_not_ends(p, "反則勝ち"@, 2);
            assert(p.subrange(3, 7) =~= "反則負け"@);
        },
        _ => {
            let w = p;
            kif_outcome_reads_back(sp, side_to_move);
            reveal_strlit("中断");
            reveal_strlit("千日手");
            reveal_strlit("持将棋");
            reveal_strlit("詰み");
            reveal_strlit("不詰");
            reveal_strlit("投了");
            reveal_strlit("切れ負け");
            assert(w.len() >= 2 && w.len() <= 3);
            lemma_not_ends(w, "勝ち"@, 0);
        },
    }
}

/// `p` does not begin with `pre` when they differ at `k`.
proof fn lemma_not_starts(p: Seq<char>, pre: Seq<char>, k: int)
    requires
        0 <= k < pre.len(),
        k < p.len() ==> p[k] != pre[k],
    ensures
        !seq_starts_with(p, pre),
{
    if pre.len() <= p.len() {
        assert(p.subrange(0, pre.len() as int)[k] == p[k]);
    }
}

/// `p` does not end with `suf` when they differ at `k` of the suffix.
proof fn lemma_not_ends(p: Seq<char>, suf: Seq<char>, k: int)
    requires
        0 <= k < suf.len(),
        suf.len() <= p.len() ==> p[p.len() - suf.len() + k] != suf[k],
    ensures
        !seq_ends_with(p, suf),
{
    if suf.len() <= p.len() {
        assert(p.subrange(p.len() - suf.len(), p.len() as int)[k] == p[p.len() - suf.len() + k]);
    }
}

/// No two outcomes share a CSA keyword.
pub proof fn csa_words_are_distinct(a: MoveSpecial, b: MoveSpecial)
    requires
        spec_csa_word(a) == spec_csa_word(b),
    ensures
        a == b,
{
    reveal_strlit("TORYO");
    reveal_strlit("CHUDAN");
    reveal_strlit("SENNICHITE");
    reveal_strlit("TIME_UP");
    reveal_strlit("ILLEGAL_MOVE");
    reveal_strlit("+ILLEGAL_ACTION");
    reveal_strlit("-ILLEGAL_ACTION");
    reveal_strlit("JISHOGI");
    reveal_strlit("KACHI");
    reveal_strlit("HIKIWAKE");
    reveal_strlit("MATTA");
    reveal_strlit("TSUMI");
    reveal_strlit("FUZUMI");
    reveal_strlit("ERROR");
    let wa = spec_csa_word(a);
    let wb = spec_csa_word(b);
    assert(wa.len() == wb.len());
    assert(wa[0] == wb[0]);
    assert(wa[1] == wb[1]);
}

/// The side that starts plays ply 1, and the sides alternate from there.
pub proof fn sides_alternate(start: Color, ply: int)
    requires
        ply >= 1,
    ensures
        spec_side_to_move_at_ply(start, 1) == start,
        spec_side_to_move_at_ply(start, ply + 1) == spec_side_to_move_at_ply(start, ply).spec_flip(),
{
}

/// Only the even game starts with Black: the upper hand moves first in every
/// handicap.
pub proof fn only_the_even_game_starts_with_black(p: Preset)
    ensures
        (spec_side_to_move(p) == Color::Black) <==> (p == Preset::PresetHirate),
{
}

/// A move that a position applies hands the turn to the other side and is
/// remembered as the last move.
pub proof fn a_move_passes_the_turn(p: PositionView, mv: PieceMove)
    requires
        spec_make_move(p, mv) is Some,
    ensures
        spec_make_move(p, mv).unwrap().side == p.side.spec_flip(),
        spec_make_move(p, mv).unwrap().last_move == Some(mv),
{
}

/// Promoting a piece and taking the promotion off gives the piece back, and a
/// promoted piece is one that came from a promotable one.
pub proof fn promotion_round_trips(k: Kind)
    ensures
        !is_promoted(k) ==> spec_unpromoted(spec_promoted(k)) == k,
        is_promoted(k) ==> can_promote(spec_unpromoted(k)) && spec_promoted(spec_unpromoted(k)) == k,
{
}

/// Taking back a piece just put in hand leaves the hand as it was.
pub proof fn hand_take_undoes_put(h: Hand, kind: Kind)
    requires
        h.spec_slot(kind) matches Some(n) && n < 255,
    ensures
        ({
            let n = h.spec_slot(kind).unwrap();
            let put = h.spec_with(kind, (n + 1) as u8);
            put.spec_slot(kind) == Some((n + 1) as u8)
                && put.spec_with(kind, n) == h
        }),
{
}

/// Folding a spelled-out starting position into the preset it matches does
/// not move where the record starts.
pub proof fn folding_keeps_the_start(initial: Initial)
    requires
        initial.preset == Preset::PresetOther,
    ensures
        start_of(spec_normalize_initial(Some(initial))) == start_of(Some(initial)),
{
    if let Some(d) = initial.data {
        if let Some(p) = preset_from(d, 0) {
            lemma_preset_from_matches(d, 0);
            lemma_flat_board_of(d.board, |f: int, r: int| preset_piece(p, f, r));
            assert(d.hands@ =~= seq![Hand::spec_empty(), Hand::spec_empty()]);
            if p == Preset::PresetHirate {
                let a = flat_board_of(|f: int, r: int| preset_piece(p, f, r));
                let b = flat_board_of(|f: int, r: int| hirate_piece(f, r));
                assert forall|i: int| 0 <= i < 81 implies #[trigger] a[i] == b[i] by {
                    assert(!is_removed(spec_removed(p).unwrap(), i / 9 + 1, i % 9 + 1));
                }
                assert(a =~= b);
            }
        }
    }
}

/// The preset found from row `i` on is one whose start `d` is.
proof fn lemma_preset_from_matches(d: StateFormat, i: int)
    requires
        preset_from(d, i) is Some,
    ensures
        matches_preset(d, preset_from(d, i).unwrap()),
    decreases 16 - i,
{
    if 0 <= i < 16 && !matches_preset(d, table_preset(i)) {
        lemma_preset_from_matches(d, i + 1);
    }
}

/// A normalized move is the move the position plays: reading it back gives
/// that move; and with `correct_color` it is marked with the side to move.
pub proof fn a_normalized_move_is_the_move_played(m: MoveMoveFormat, pos: PositionView, correct_color: bool, infer_relative: bool)
    requires
        spec_normalize_move(m, pos, correct_color, infer_relative) matches Ok(_),
    ensures
        spec_normalize_move(m, pos, correct_color, infer_relative) matches Ok((r, mv))
            && spec_move_of(r) == Ok::<PieceMove, crate::error::ConvertError>(mv)
            && r.color == pos.side,
{

}

/// Lines are numbered by the nodes that have a line: a node carrying only
/// comments takes no number.
pub open spec fn lines_before(moves: Seq<MoveFormat>, k: int) -> int
    decreases k,
{
    if k <= 0 {
        0
    } else {
        lines_before(moves, k - 1) + if moves[k - 1].spec_occupies_a_ply() { 1int } else { 0 }
    }
}

/// The ply of a node is the first ply plus the number of lines before it.
pub proof fn plies_count_lines(moves: Seq<MoveFormat>, first: u64, k: int)
    requires
        0 <= k <= moves.len(),
        first + moves.len() <= u64::MAX,
    ensures
        ply_at(moves, first, k) == first + lines_before(moves, k),
        lines_before(moves, k) <= k,
    decreases k,
{
    if k > 0 {
        plies_count_lines(moves, first, k - 1);
    }
}

/// A header value is written on one line: nothing of it breaks the line,
/// neither `\n` nor `\r`.
pub proof fn a_header_value_is_one_line(v: Seq<char>, i: int)
    requires
        0 <= i < one_line(v).len(),
    ensures
        one_line(v)[i] != '\n',
        one_line(v)[i] != '\r',
    decreases v.len(),
{
    if v.len() > 0 {
        let rest = one_line(v.drop_first());
        if v[0] == '\n' || v[0] == '\r' {
            a_header_value_is_one_line(v.drop_first(), i);
        } else if i > 0 {
            assert(one_line(v)[i] == rest[i - 1]);
            a_header_value_is_one_line(v.drop_first(), i - 1);
        }
    }
}

/// The relative word a node's move carries, none without a move.
pub open spec fn relative_of(m: Option<MoveMoveFormat>) -> Option<Relative> {
    match m {
        Some(x) => x.relative,
        None => None,
    }
}

/// With `relative` inference off, normalizing a move keeps the relative
/// word it had, `None` included.
pub proof fn normalizing_without_inference_keeps_the_relative_word(mmf: MoveMoveFormat, pos: PositionView, correct_color: bool)
    ensures
        spec_normalize_move(mmf, pos, correct_color, false) matches Ok((m, _)) ==> m.relative == mmf.relative,
        relative_of(node_move(Some(mmf), pos, correct_color, false)) == mmf.relative,
{
}

/// A line normalized with `relative` inference off keeps every node's
/// relative word on its main line: the nodes normalized and the nodes left
/// as they were alike.
pub proof fn a_line_normalized_without_inference_keeps_its_relative_words(old: Seq<MoveFormat>, new: Seq<MoveFormat>, pos: PositionView, totals: Seq<TimeFormat>, correct_color: bool)
    requires
        line_rel(old, new, pos, totals, correct_color, false),
    ensures
        new.len() == old.len(),
        forall|k: int| 0 <= k < old.len() ==> relative_of(#[trigger] new[k].move_) == relative_of(old[k].move_),
    decreases old.len(),
{
    if old.len() > 0 {
        assert(crate::normalizer::node_rel(old[0], new[0], pos, totals, correct_color, false));
        assert(new[0].move_ == node_move(old[0].move_, pos, correct_color, false));
        match old[0].move_ {
            Some(mmf) => normalizing_without_inference_keeps_the_relative_word(mmf, pos, correct_color),
            None => {},
        }
        assert(relative_of(new[0].move_) == relative_of(old[0].move_));
        match crate::normalizer::node_next(old[0].move_, old[0].special, pos, correct_color, false) {
            None => {
                assert forall|k: int| 0 <= k < old.len() implies relative_of(#[trigger] new[k].move_) == relative_of(old[k].move_) by {
                    if k > 0 {
                        assert(new[k] == new.drop_first()[k - 1]);
                        assert(old[k] == old.drop_first()[k - 1]);
                    }
                }
            },
            Some(next) => {
                let t = crate::normalizer::next_totals(old[0].time, totals, pos.side);
                a_line_normalized_without_inference_keeps_its_relative_words(old.drop_first(), new.drop_first(), next, t, correct_color);
                assert forall|k: int| 0 <= k < old.len() implies relative_of(#[trigger] new[k].move_) == relative_of(old[k].move_) by {
                    if k > 0 {
                        assert(new[k] == new.drop_first()[k - 1]);
                        assert(old[k] == old.drop_first()[k - 1]);
                    }
                }
            },
        }
    }
}


/// Whether `n` carries the relative word `o` carries, and so does every node
/// of its branches, branch for branch.
pub open spec fn relatives_kept(o: MoveFormat, n: MoveFormat) -> bool
    decreases o,
{
    &&& relative_of(n.move_) == relative_of(o.move_)
    &&& match o.forks {
        None => n.forks is None,
        Some(of) => n.forks matches Some(nf) && nf@.len() == of@.len()
            && forall|i: int| 0 <= i < of@.len() ==> lines_keep_relatives(#[trigger] of@[i]@, nf@[i]@),
    }
}

/// [`relatives_kept`] node for node along a line.
pub open spec fn lines_keep_relatives(o: Seq<MoveFormat>, n: Seq<MoveFormat>) -> bool
    decreases o,
{
    &&& o.len() == n.len()
    &&& forall|k: int| 0 <= k < o.len() ==> relatives_kept(#[trigger] o[k], n[k])
}

proof fn lemma_relatives_kept_refl(o: MoveFormat)
    ensures
        relatives_kept(o, o),
    decreases o, 1nat,
{
    match o.forks {
        None => {},
        Some(of) => {
            assert forall|i: int| 0 <= i < of@.len() implies lines_keep_relatives(#[trigger] of@[i]@, of@[i]@) by {
                lemma_lines_keep_relatives_refl(of@[i]@);
            }
        },
    }
}

proof fn lemma_lines_keep_relatives_refl(o: Seq<MoveFormat>)
    ensures
        lines_keep_relatives(o, o),
    decreases o, 0nat,
{
    assert forall|k: int| 0 <= k < o.len() implies relatives_kept(#[trigger] o[k], o[k]) by {
        lemma_relatives_kept_refl(o[k]);
    }
}

proof fn lemma_node_keeps_relatives(o: MoveFormat, n: MoveFormat, pos: PositionView, totals: Seq<TimeFormat>, correct_color: bool)
    requires
        crate::normalizer::node_rel(o, n, pos, totals, correct_color, false),
    ensures
        relatives_kept(o, n),
    decreases o, 2nat,
{
    match o.move_ {
        Some(mmf) => normalizing_without_inference_keeps_the_relative_word(mmf, pos, correct_color),
        None => {},
    }
    match o.forks {
        None => {},
        Some(of) => {
            let nf = n.forks->Some_0;
            lemma_forks_keep_relatives(of@, nf@, pos, totals, correct_color);
        },
    }
}

proof fn lemma_forks_keep_relatives(o: Seq<Vec<MoveFormat>>, n: Seq<Vec<MoveFormat>>, pos: PositionView, totals: Seq<TimeFormat>, correct_color: bool)
    requires
        forks_seq_rel(o, n, pos, totals, correct_color, false),
    ensures
        n.len() == o.len(),
        forall|i: int| 0 <= i < o.len() ==> lines_keep_relatives(#[trigger] o[i]@, n[i]@),
    decreases o, 1nat,
{
    if o.len() > 0 {
        assert(crate::normalizer::fork_rel(o[0]@, n[0]@, pos, totals, correct_color, false));
        if line_err(o[0]@, pos, correct_color, false) is None {
            lemma_line_keeps_relatives(o[0]@, n[0]@, pos, totals, correct_color);
        } else {
            lemma_lines_keep_relatives_refl(o[0]@);
        }
        lemma_forks_keep_relatives(o.drop_first(), n.drop_first(), pos, totals, correct_color);
        assert forall|i: int| 0 <= i < o.len() implies lines_keep_relatives(#[trigger] o[i]@, n[i]@) by {
            if i > 0 {
                assert(o[i] == o.drop_first()[i - 1]);
                assert(n[i] == n.drop_first()[i - 1]);
            }
        }
    }
}

proof fn lemma_line_keeps_relatives(o: Seq<MoveFormat>, n: Seq<MoveFormat>, pos: PositionView, totals: Seq<TimeFormat>, correct_color: bool)
    requires
        line_rel(o, n, pos, totals, correct_color, false),
    ensures
        lines_keep_relatives(o, n),
    decreases o, 3nat,
{
    if o.len() > 0 {
        lemma_node_keeps_relatives(o[0], n[0], pos, totals, correct_color);
        match crate::normalizer::node_next(o[0].move_, o[0].special, pos, correct_color, false) {
            None => {
                lemma_lines_keep_relatives_refl(o.drop_first());
            },
            Some(next) => {
                let t = crate::normalizer::next_totals(o[0].time, totals, pos.side);
                lemma_line_keeps_relatives(o.drop_first(), n.drop_first(), next, t, correct_color);
            },
        }
        assert forall|k: int| 0 <= k < o.len() implies relatives_kept(#[trigger] o[k], n[k]) by {
            if k > 0 {
                assert(o[k] == o.drop_first()[k - 1]);
                assert(n[k] == n.drop_first()[k - 1]);
                assert(relatives_kept(o.drop_first()[k - 1], n.drop_first()[k - 1]));
            }
        }
    }
}

/// Normalizing a record with `relative` inference off keeps every move's
/// relative word, `None` included: on the main line and in every branch,
/// the nodes normalized and the nodes left as they were alike.
pub proof fn normalizing_without_inference_keeps_every_relative_word(before: JsonKifuFormat, after: JsonKifuFormat, r: Result<(), NormalizeError>, correct_color: bool)
    requires
        normalized_with(before, after, r, correct_color, false),
    ensures
        lines_keep_relatives(
            if colors_flipped(spec_normalize_initial(before.initial), before.moves@) { flip_colors(before.moves@) } else { before.moves@ },
            after.moves@,
        ),
{
    let initial = spec_normalize_initial(before.initial);
    let moves = if colors_flipped(initial, before.moves@) { flip_colors(before.moves@) } else { before.moves@ };
    match start_of(initial) {
        Err(_) => {
            lemma_lines_keep_relatives_refl(moves);
        },
        Ok(start) => {
            if moves.len() > 0 {
                let zero = seq![TimeFormat::spec_default(), TimeFormat::spec_default()];
                lemma_line_keeps_relatives(moves.drop_first(), after.moves@.drop_first(), start, zero, correct_color, );
                lemma_relatives_kept_refl(moves[0]);
                assert forall|k: int| 0 <= k < moves.len() implies relatives_kept(#[trigger] moves[k], after.moves@[k]) by {
                    if k > 0 {
                        assert(moves[k] == moves.drop_first()[k - 1]);
                        assert(after.moves@[k] == after.moves@.drop_first()[k - 1]);
                    }
                }
            }
        },
    }
}

/// Normalizing a node's branches keeps every branch: as many come out as went
/// in, and one that cannot be replayed from the position before the node
/// comes out as it went in.
pub proof fn a_branch_that_cannot_be_replayed_is_kept_as_it_was(old: Seq<Vec<MoveFormat>>, new: Seq<Vec<MoveFormat>>, pos: PositionView, totals: Seq<TimeFormat>, correct_color: bool, infer_relative: bool)
    requires
        forks_seq_rel(old, new, pos, totals, correct_color, infer_relative),
    ensures
        new.len() == old.len(),
        forall|j: int| 0 <= j < old.len() && line_err(#[trigger] old[j]@, pos, correct_color, infer_relative) is Some ==> new[j]@ == old[j]@,
    decreases old.len(),
{
    if old.len() > 0 {
        assert(crate::normalizer::fork_rel(old[0]@, new[0]@, pos, totals, correct_color, infer_relative));
        a_branch_that_cannot_be_replayed_is_kept_as_it_was(old.drop_first(), new.drop_first(), pos, totals, correct_color, infer_relative);
        assert forall|j: int| 0 <= j < old.len() && line_err(#[trigger] old[j]@, pos, correct_color, infer_relative) is Some implies new[j]@ == old[j]@ by {
            if j > 0 {
                assert(old[j] == old.drop_first()[j - 1]);
                assert(new[j] == new.drop_first()[j - 1]);
            }
        }
    }
}


/// The position a line reaches before its node `k`, replaying it from
/// `pos`: none once an outcome or a move that fails has stopped it.
pub open spec fn position_before(moves: Seq<MoveFormat>, pos: PositionView, correct_color: bool, infer_relative: bool, k: int) -> Option<PositionView>
    decreases k,
{
    if k <= 0 {
        Some(pos)
    } else if moves.len() == 0 {
        None
    } else {
        match crate::normalizer::node_next(moves[0].move_, moves[0].special, pos, correct_color, infer_relative) {
            None => None,
            Some(next) => position_before(moves.drop_first(), next, correct_color, infer_relative, k - 1),
        }
    }
}

/// The time each side has used before node `k` of a line replayed from
/// `pos` with `totals` used before it.
pub open spec fn totals_before(moves: Seq<MoveFormat>, pos: PositionView, totals: Seq<TimeFormat>, correct_color: bool, infer_relative: bool, k: int) -> Seq<TimeFormat>
    decreases k,
{
    if k <= 0 || moves.len() == 0 {
        totals
    } else {
        match crate::normalizer::node_next(moves[0].move_, moves[0].special, pos, correct_color, infer_relative) {
            None => totals,
            Some(next) => totals_before(moves.drop_first(), next, crate::normalizer::next_totals(moves[0].time, totals, pos.side), correct_color, infer_relative, k - 1),
        }
    }
}

/// Every node of a normalized line that the replay reaches holds its move
/// resolved against the position before it (the piece standing on its
/// origin, what it captures, `同` and the promotion flag, as
/// [`spec_normalize_move`] reads them off that position), its time with the
/// running total of the side to move added up from the nodes before it, its
/// comments and outcome as they were, and its branches each normalized from
/// that position, or kept as they were where they cannot be (see
/// [`a_branch_that_cannot_be_replayed_is_kept_as_it_was`]).
pub proof fn each_move_is_resolved_against_the_position_before_it(old: Seq<MoveFormat>, new: Seq<MoveFormat>, pos: PositionView, totals: Seq<TimeFormat>, correct_color: bool, infer_relative: bool, k: int)
    requires
        line_rel(old, new, pos, totals, correct_color, infer_relative),
        0 <= k < old.len(),
        position_before(old, pos, correct_color, infer_relative, k) is Some,
    ensures
        new.len() == old.len(),
        new[k].comments == old[k].comments,
        new[k].special == old[k].special,
        new[k].move_ == node_move(old[k].move_, position_before(old, pos, correct_color, infer_relative, k).unwrap(), correct_color, infer_relative),
        new[k].time == crate::normalizer::node_time(old[k].time, totals_before(old, pos, totals, correct_color, infer_relative, k), position_before(old, pos, correct_color, infer_relative, k).unwrap().side),
        crate::normalizer::forks_rel(old[k].forks, new[k].forks, position_before(old, pos, correct_color, infer_relative, k).unwrap(), totals_before(old, pos, totals, correct_color, infer_relative, k), correct_color, infer_relative),
    decreases k,
{
    assert(crate::normalizer::node_rel(old[0], new[0], pos, totals, correct_color, infer_relative));
    if k > 0 {
        let next = crate::normalizer::node_next(old[0].move_, old[0].special, pos, correct_color, infer_relative).unwrap();
        let t = crate::normalizer::next_totals(old[0].time, totals, pos.side);
        each_move_is_resolved_against_the_position_before_it(old.drop_first(), new.drop_first(), next, t, correct_color, infer_relative, k - 1);
        assert(new[k] == new.drop_first()[k - 1]);
        assert(old[k] == old.drop_first()[k - 1]);
    }
}

/// A move normalized from a square of the board reads its fields off the
/// position before it: the piece is the one standing on its origin; it
/// captures what stands on its destination (nothing on an empty square); it
/// is `同` exactly when it lands where the last move landed; and where the
/// piece can promote and the move starts or ends in the mover's enemy camp
/// (relative rank 3 or less), `成` says whether the piece arriving differs
/// from the one that left, else it says nothing.
pub proof fn a_normalized_move_reads_its_fields_off_the_board(mmf: MoveMoveFormat, pos: PositionView, correct_color: bool, infer_relative: bool)
    requires
        spec_normalize_move(mmf, pos, correct_color, infer_relative) is Ok,
        spec_normalize_move(mmf, pos, correct_color, infer_relative)->Ok_0.0.from matches Some(f) && crate::position::spec_square_of(f) is Ok,
    ensures
        ({
            let m = spec_normalize_move(mmf, pos, correct_color, infer_relative)->Ok_0.0;
            let from = crate::position::spec_square_of(m.from.unwrap())->Ok_0;
            let to = crate::position::spec_square_of(m.to)->Ok_0;
            let arriving = match spec_move_of(m) {
                Ok(PieceMove::Normal { promote, .. }) => if promote { spec_promoted(m.piece) } else { m.piece },
                _ => m.piece,
            };
            &&& crate::position::spec_square_of(m.to) is Ok
            &&& pos.piece_at(from) matches Some(p) && m.piece == p.kind
            &&& m.capture == (match pos.piece_at(to) { Some(p) => Some(p.kind), None => None })
            &&& m.same == (if pos.last_move matches Some(last) && last.spec_to() == to { Some(true) } else { None })
            &&& m.promote == (if can_promote(m.piece) && (from.spec_relative_rank(pos.side) <= 3 || to.spec_relative_rank(pos.side) <= 3) {
                Some(m.piece != arriving)
            } else {
                None
            })
        }),
{
}

/// The moves of the nodes before `k` that hold one, in order.
pub open spec fn moves_held(moves: Seq<MoveFormat>, k: int) -> Seq<MoveMoveFormat>
    decreases k,
{
    if k <= 0 {
        Seq::empty()
    } else {
        match moves[k - 1].move_ {
            None => moves_held(moves, k - 1),
            Some(m) => moves_held(moves, k - 1).push(m),
        }
    }
}

proof fn lemma_replay_plays_each_move(moves: Seq<MoveFormat>, pos: PositionView, k: int)
    requires
        0 <= k <= moves.len(),
        crate::converter::replay(moves, pos, k) is Ok,
    ensures
        crate::converter::replay(moves, pos, k)->Ok_0.0.len() == moves_held(moves, k).len(),
        forall|i: int| 0 <= i < moves_held(moves, k).len() ==>
            spec_move_of(#[trigger] moves_held(moves, k)[i]) == Ok::<PieceMove, crate::error::ConvertError>(crate::converter::replay(moves, pos, k)->Ok_0.0[i]),
    decreases k,
{
    if k > 0 {
        lemma_replay_plays_each_move(moves, pos, k - 1);
    }
}

/// A record in USI lists every move its main line holds, in order, each as
/// the move it stands for: after the opening (`startpos` for the even game's
/// start, else `sfen` and the position), ` moves` and the moves when the
/// main line holds any, nothing more when it holds none.
pub proof fn usi_lists_every_move_in_order(j: JsonKifuFormat)
    requires
        crate::converter::spec_usi(j) is Ok,
    ensures
        ({
            let start = start_of(j.initial)->Ok_0;
            let held = moves_held(j.moves@, j.moves@.len() as int);
            let played = crate::converter::replay(j.moves@, start, j.moves@.len() as int)->Ok_0.0;
            &&& start_of(j.initial) is Ok
            &&& played.len() == held.len()
            &&& forall|i: int| 0 <= i < held.len() ==> spec_move_of(#[trigger] held[i]) == Ok::<PieceMove, crate::error::ConvertError>(played[i])
            &&& crate::converter::spec_usi(j)->Ok_0 ==
                (if start == crate::position::spec_startpos() { "startpos"@ } else { "sfen "@ + crate::engine::sfen(start) })
                + (if held.len() > 0 { " moves"@ + crate::converter::usi_moves(played) } else { Seq::empty() })
        }),
{
    let start = start_of(j.initial)->Ok_0;
    lemma_replay_plays_each_move(j.moves@, start, j.moves@.len() as int);
}

/// KIF never writes `不成`: a move that declines to promote is written as
/// one that says nothing of promoting.
pub proof fn kif_never_writes_the_word_for_declining(m: MoveMoveFormat)
    ensures
        crate::converter::kif::kif_move_text(MoveMoveFormat { promote: Some(false), ..m })
            == crate::converter::kif::kif_move_text(MoveMoveFormat { promote: None, ..m }),
{
}

/// KIF marks every drop: a drop it can write ends in `打`.
pub proof fn kif_marks_every_drop(m: MoveMoveFormat)
    requires
        m.from is None,
        crate::converter::kif::kif_move_text(m).1 is None,
    ensures
        crate::converter::kif::kif_move_text(m).0.len() > 0,
        crate::converter::kif::kif_move_text(m).0.last() == '打',
{
    reveal_strlit("打");
    let t = crate::converter::kif::kif_move_text(m).0;
    assert(t.last() == "打"@.last());
}

/// A KIF or KI2 file always names where the record starts: the line or the
/// board for its start is never empty, a record that leaves its start
/// unsaid included (it is written as the even game).
pub proof fn the_start_is_always_written(initial: Option<Initial>)
    requires
        crate::converter::kakinoki::spec_kakinoki_initial(initial).1 is None,
    ensures
        crate::converter::kakinoki::spec_kakinoki_initial(initial).0.len() > 0,
{
    reveal_strlit("手合割：");
    match initial {
        Some(i) => match i.data {
            Some(d) => lemma_initial_data_nonempty(d),
            None => {},
        },
        None => {},
    }
}

proof fn lemma_then_all_grows(ws: Seq<(Seq<char>, Option<crate::error::ConvertError>)>)
    requires
        ws.len() >= 1,
    ensures
        crate::converter::then_all(ws).0.len() >= ws[0].0.len(),
    decreases ws.len(),
{
    if ws.len() == 1 {
        assert(ws.drop_last() =~= Seq::<(Seq<char>, Option<crate::error::ConvertError>)>::empty());
        assert(crate::converter::then_all(ws.drop_last()) == crate::converter::ok(Seq::empty()));
        assert(ws.last() == ws[0]);
    } else {
        lemma_then_all_grows(ws.drop_last());
        assert(ws.drop_last()[0] == ws[0]);
    }
}

proof fn lemma_initial_data_nonempty(d: StateFormat)
    ensures
        crate::converter::kakinoki::initial_data_text(d).0.len() > 0,
{
    reveal_strlit("手合割：その他\n後手の持駒：");
    lemma_then_all_grows(crate::converter::kakinoki::initial_data_parts(d));
}

/// KI2 numbers a line's nodes as KIF does: as long as nothing has failed,
/// the ply after the first `k` nodes of a line is its first ply plus the
/// nodes among them that hold a move or an outcome.
pub proof fn ki2_numbers_nodes_as_kif_does(moves: Seq<MoveFormat>, first: u64, pos: Option<PositionView>, start: Color, k: int)
    requires
        0 <= k <= moves.len(),
        crate::converter::ki2::ki2_fold(moves, k, crate::converter::ki2::line_start(first, pos), start).0.1 is None,
    ensures
        crate::converter::ki2::ki2_fold(moves, k, crate::converter::ki2::line_start(first, pos), start).1.ply == ply_at(moves, first, k),
    decreases k,
{
    if k > 0 {
        let w = crate::converter::ki2::ki2_fold(moves, k - 1, crate::converter::ki2::line_start(first, pos), start).0;
        assert(w.1 is None);
        ki2_numbers_nodes_as_kif_does(moves, first, pos, start, k - 1);
    }
}

/// What KI2 writes for a node: a move opens with `▲` when Black plays it
/// and `△` when White does (after a space unless it starts the line); a
/// node with an outcome and no move writes the line
/// `まで<the ply before>手で<phrase>`, the phrase naming the result for the
/// side to move.
pub proof fn ki2_writes_a_mark_per_move_and_a_line_per_outcome(n: MoveFormat, st: crate::converter::ki2::Ki2State, start: Color)
    ensures
        n.move_ matches Some(m) ==> ({
            let t = crate::converter::ki2::ki2_first(n, st, start).0.0;
            let at = if st.at_start { 0int } else { 1int };
            &&& t.len() > at
            &&& t[at] == (if m.color == Color::Black { '▲' } else { '△' })
        }),
        n.move_ is None && n.special is Some ==> crate::converter::ki2::ki2_first(n, st, start).0 == crate::converter::ok(
            (if st.at_start { Seq::empty() } else { "\n"@ }) + "まで"@ + crate::text::decimal(crate::converter::ki2::ply_before(st.ply) as nat) + "手で"@
                + spec_ki2_phrase(n.special.unwrap(), crate::converter::ki2::side_at(st, start)) + "\n"@),
{
    reveal_strlit("▲");
    reveal_strlit("△");
    reveal_strlit(" ");
    match n.move_ {
        Some(m) => {
            let mark = if m.color == Color::Black { "▲"@ } else { "△"@ };
            let sep = if st.at_start { Seq::<char>::empty() } else { " "@ };
            let rest = crate::converter::ki2::ki2_move_text(m, st.pos);
            assert(rest.0[0] == mark[0]);
            let t = crate::converter::ki2::ki2_first(n, st, start).0.0;
            assert(t =~= sep + rest.0);
            assert(t[sep.len() as int] == rest.0[0]);
        },
        None => {},
    }
}

/// An amount of time in seconds.
pub open spec fn seconds(t: TimeFormat) -> int {
    crate::normalizer::hours(t) * 3600 + t.m * 60 + t.s
}

/// Adding two times adds their seconds, as long as the sum stays under 256
/// hours (past that the hours stay at 255).
pub proof fn adding_times_adds_seconds(a: TimeFormat, b: TimeFormat)
    requires
        seconds(a) + seconds(b) < 256 * 3600,
    ensures
        seconds(crate::normalizer::spec_add_time(a, b)) == seconds(a) + seconds(b),
{
    let total = (crate::normalizer::hours(a) + crate::normalizer::hours(b)) * 3600 + (a.m + b.m) * 60 + (a.s + b.s);
    assert(total == seconds(a) + seconds(b));
    assert(total >= 0);
    assert(total == (total / 3600) * 3600 + ((total / 60) % 60) * 60 + total % 60) by (nonlinear_arith)
        requires total >= 0;
}

/// The seconds a node with `time` played by `mover` adds to `side`'s total.
pub open spec fn own_seconds(time: Option<crate::jkf::Time>, mover: Color, side: Color) -> int {
    match time {
        Some(t) => if mover == side { seconds(t.now) } else { 0 },
        None => 0,
    }
}

/// The seconds `side` spends on the nodes of a line before node `k`,
/// replaying it from `pos`: the stated time of each node it plays, as far as
/// the replay goes.
pub open spec fn spent(moves: Seq<MoveFormat>, pos: PositionView, correct_color: bool, infer_relative: bool, k: int, side: Color) -> int
    decreases k,
{
    if k <= 0 || moves.len() == 0 {
        0
    } else {
        match crate::normalizer::node_next(moves[0].move_, moves[0].special, pos, correct_color, infer_relative) {
            None => 0,
            Some(next) => own_seconds(moves[0].time, pos.side, side)
                + spent(moves.drop_first(), next, correct_color, infer_relative, k - 1, side),
        }
    }
}

proof fn lemma_spent_nonneg(moves: Seq<MoveFormat>, pos: PositionView, correct_color: bool, infer_relative: bool, k: int, side: Color)
    ensures
        spent(moves, pos, correct_color, infer_relative, k, side) >= 0,
    decreases k,
{
    if k > 0 && moves.len() > 0 {
        match crate::normalizer::node_next(moves[0].move_, moves[0].special, pos, correct_color, infer_relative) {
            None => {},
            Some(next) => lemma_spent_nonneg(moves.drop_first(), next, correct_color, infer_relative, k - 1, side),
        }
    }
}

/// A running total is the time a side has spent: the total a side has used
/// before node `k` of a normalized line is what it had used before the line
/// plus the stated time of every node it played on the line before `k`, as
/// long as that stays under 256 hours.
pub proof fn running_totals_add_up(moves: Seq<MoveFormat>, pos: PositionView, totals: Seq<TimeFormat>, correct_color: bool, infer_relative: bool, k: int, side: Color)
    requires
        totals.len() == 2,
        seconds(totals[side.spec_index()]) + spent(moves, pos, correct_color, infer_relative, k, side) < 256 * 3600,
    ensures
        seconds(totals_before(moves, pos, totals, correct_color, infer_relative, k)[side.spec_index()])
            == seconds(totals[side.spec_index()]) + spent(moves, pos, correct_color, infer_relative, k, side),
    decreases k,
{
    if k > 0 && moves.len() > 0 {
        match crate::normalizer::node_next(moves[0].move_, moves[0].special, pos, correct_color, infer_relative) {
            None => {},
            Some(next) => {
                let t2 = crate::normalizer::next_totals(moves[0].time, totals, pos.side);
                lemma_spent_nonneg(moves.drop_first(), next, correct_color, infer_relative, k - 1, side);
                match moves[0].time {
                    Some(t) => {
                        if pos.side == side {
                            adding_times_adds_seconds(totals[side.spec_index()], t.now);
                        } else {
                            assert(side.spec_index() != pos.side.spec_index()) by {
                                match side { Color::Black => {}, Color::White => {} }
                                match pos.side { Color::Black => {}, Color::White => {} }
                            }
                        }
                    },
                    None => {},
                }
                assert(seconds(t2[side.spec_index()]) == seconds(totals[side.spec_index()])
                    + own_seconds(moves[0].time, pos.side, side));
                running_totals_add_up(moves.drop_first(), next, t2, correct_color, infer_relative, k - 1, side);
            },
        }
    }
}

} // verus!
