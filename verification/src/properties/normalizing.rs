//! Normalizing is a function of the record: whichever entry point runs it
//! with the same options, the record and the report come out the same.

use vstd::prelude::*;
use crate::error::NormalizeError;
use crate::jkf::{JsonKifuFormat, MoveFormat, MoveMoveFormat, TimeFormat};
use crate::normalizer::{
    colors_flipped, flip_colors, fork_rel, forks_seq_rel, line_rel, node_next, node_rel, normalized_with,
    spec_normalize_initial, start_of,
};
use crate::position::{spec_move_of, PositionView};
use crate::normalizer::{fill_forks_seq_rel, fill_line_rel, fill_next, fill_node_rel, line_err, node_err, spec_normalize_move};
use crate::properties::relative_fill::{same_lines, same_node};

verus! {

proof fn lemma_same_refl(o: MoveFormat)
    ensures
        same_node(o, o),
    decreases o, 1nat,
{
    match o.forks {
        None => {},
        Some(of) => {
            assert forall|i: int| 0 <= i < of@.len() implies same_lines(#[trigger] of@[i]@, of@[i]@) by {
                lemma_same_lines_refl(of@[i]@);
            }
        },
    }
}

proof fn lemma_same_lines_refl(o: Seq<MoveFormat>)
    ensures
        same_lines(o, o),
    decreases o, 0nat,
{
    assert forall|k: int| 0 <= k < o.len() implies same_node(#[trigger] o[k], o[k]) by {
        lemma_same_refl(o[k]);
    }
}

proof fn lemma_node_determined(o: MoveFormat, a: MoveFormat, b: MoveFormat, pos: PositionView, totals: Seq<TimeFormat>, cc: bool, ir: bool)
    requires
        node_rel(o, a, pos, totals, cc, ir),
        node_rel(o, b, pos, totals, cc, ir),
    ensures
        same_node(a, b),
    decreases o, 2nat,
{
    match o.forks {
        None => {},
        Some(of) => lemma_forks_determined(of@, a.forks->Some_0@, b.forks->Some_0@, pos, totals, cc, ir),
    }
}

proof fn lemma_forks_determined(o: Seq<Vec<MoveFormat>>, a: Seq<Vec<MoveFormat>>, b: Seq<Vec<MoveFormat>>, pos: PositionView, totals: Seq<TimeFormat>, cc: bool, ir: bool)
    requires
        forks_seq_rel(o, a, pos, totals, cc, ir),
        forks_seq_rel(o, b, pos, totals, cc, ir),
    ensures
        a.len() == o.len(),
        b.len() == o.len(),
        forall|i: int| 0 <= i < o.len() ==> same_lines(#[trigger] a[i]@, b[i]@),
    decreases o, 1nat,
{
    if o.len() > 0 {
        assert(fork_rel(o[0]@, a[0]@, pos, totals, cc, ir));
        assert(fork_rel(o[0]@, b[0]@, pos, totals, cc, ir));
        if crate::normalizer::line_err(o[0]@, pos, cc, ir) is None {
            lemma_line_determined(o[0]@, a[0]@, b[0]@, pos, totals, cc, ir);
        } else {
            lemma_same_lines_refl(o[0]@);
        }
        lemma_forks_determined(o.drop_first(), a.drop_first(), b.drop_first(), pos, totals, cc, ir);
        assert forall|i: int| 0 <= i < o.len() implies same_lines(#[trigger] a[i]@, b[i]@) by {
            if i > 0 {
                assert(a[i] == a.drop_first()[i - 1]);
                assert(b[i] == b.drop_first()[i - 1]);
            }
        }
    }
}

proof fn lemma_line_determined(o: Seq<MoveFormat>, a: Seq<MoveFormat>, b: Seq<MoveFormat>, pos: PositionView, totals: Seq<TimeFormat>, cc: bool, ir: bool)
    requires
        line_rel(o, a, pos, totals, cc, ir),
        line_rel(o, b, pos, totals, cc, ir),
    ensures
        same_lines(a, b),
    decreases o, 3nat,
{
    if o.len() > 0 {
        lemma_node_determined(o[0], a[0], b[0], pos, totals, cc, ir);
        match node_next(o[0].move_, o[0].special, pos, cc, ir) {
            None => lemma_same_lines_refl(o.drop_first()),
            Some(next) => {
                let t = crate::normalizer::next_totals(o[0].time, totals, pos.side);
                lemma_line_determined(o.drop_first(), a.drop_first(), b.drop_first(), next, t, cc, ir);
            },
        }
        assert forall|k: int| 0 <= k < a.len() implies same_node(#[trigger] a[k], b[k]) by {
            if k > 0 {
                assert(a[k] == a.drop_first()[k - 1]);
                assert(b[k] == b.drop_first()[k - 1]);
            }
        }
    }
}

/// Normalizing a record with given options comes to one result: two runs on
/// the same record (say `normalize_with_color_correction(c)` and
/// `normalize_with_options(c, true)`, which normalize alike) leave the same
/// header and start, node for node the same moves and branches, and report
/// success, or an error at the same ply, alike.
pub proof fn normalizing_comes_to_one_result(before: JsonKifuFormat, a: JsonKifuFormat, ra: Result<(), NormalizeError>, b: JsonKifuFormat, rb: Result<(), NormalizeError>, correct_color: bool, infer_relative: bool)
    requires
        normalized_with(before, a, ra, correct_color, infer_relative),
        normalized_with(before, b, rb, correct_color, infer_relative),
    ensures
        a.header == b.header,
        a.initial == b.initial,
        same_lines(a.moves@, b.moves@),
        ra is Ok <==> rb is Ok,
        ra matches Err(ea) ==> rb matches Err(eb) && ea.ply == eb.ply,
{
    let initial = spec_normalize_initial(before.initial);
    let moves = if colors_flipped(initial, before.moves@) { flip_colors(before.moves@) } else { before.moves@ };
    match start_of(initial) {
        Err(_) => {
            lemma_same_lines_refl(moves);
        },
        Ok(start) => {
            if moves.len() > 0 {
                let zero = seq![TimeFormat::spec_default(), TimeFormat::spec_default()];
                lemma_line_determined(moves.drop_first(), a.moves@.drop_first(), b.moves@.drop_first(), start, zero, correct_color, infer_relative);
                lemma_same_refl(moves[0]);
                assert forall|k: int| 0 <= k < a.moves@.len() implies same_node(#[trigger] a.moves@[k], b.moves@[k]) by {
                    if k > 0 {
                        assert(a.moves@[k] == a.moves@.drop_first()[k - 1]);
                        assert(b.moves@[k] == b.moves@.drop_first()[k - 1]);
                        assert(same_node(a.moves@.drop_first()[k - 1], b.moves@.drop_first()[k - 1]));
                    }
                }
            }
        },
    }
}

/// Whether every branch of `o`, and every branch of a node those branches
/// reach, replays from the position before its node without a fault.
pub open spec fn branches_replay(o: MoveFormat, pos: PositionView, cc: bool) -> bool
    decreases o,
{
    match o.forks {
        None => true,
        Some(of) => forall|i: int| 0 <= i < of@.len() ==>
            line_err(#[trigger] of@[i]@, pos, cc, false) is None && line_replays(of@[i]@, pos, cc),
    }
}

/// [`branches_replay`] for each node of a line the replay from `pos` reaches.
pub open spec fn line_replays(o: Seq<MoveFormat>, pos: PositionView, cc: bool) -> bool
    decreases o,
{
    if o.len() == 0 {
        true
    } else {
        &&& branches_replay(o[0], pos, cc)
        &&& match node_next(o[0].move_, o[0].special, pos, cc, false) {
            None => true,
            Some(next) => line_replays(o.drop_first(), next, cc),
        }
    }
}

/// Inferring `relative` or not, a move resolves, or fails, alike and stands
/// for the same move; inferring only fills in a word it did not have.
proof fn lemma_inference_aside(mmf: MoveMoveFormat, pos: PositionView, cc: bool)
    ensures
        spec_normalize_move(mmf, pos, cc, false) is Ok <==> spec_normalize_move(mmf, pos, cc, true) is Ok,
        spec_normalize_move(mmf, pos, cc, false) is Err ==> spec_normalize_move(mmf, pos, cc, false) == spec_normalize_move(mmf, pos, cc, true),
        spec_normalize_move(mmf, pos, cc, false) matches Ok((m4, mv)) ==> ({
            &&& spec_normalize_move(mmf, pos, cc, true)->Ok_0.1 == mv
            &&& spec_move_of(m4) == Ok::<crate::position::PieceMove, crate::error::ConvertError>(mv)
            &&& spec_normalize_move(mmf, pos, cc, true)->Ok_0.0 == crate::normalizer::fill_move(Some(m4), pos).unwrap()
        }),
{
}

proof fn lemma_line_err_aside(o: Seq<MoveFormat>, pos: PositionView, cc: bool)
    ensures
        line_err(o, pos, cc, false) == line_err(o, pos, cc, true),
    decreases o.len(),
{
    reveal(line_err);
    if o.len() > 0 {
        match o[0].move_ {
            Some(mmf) => lemma_inference_aside(mmf, pos, cc),
            None => {},
        }
        match node_next(o[0].move_, o[0].special, pos, cc, false) {
            None => {},
            Some(next) => lemma_line_err_aside(o.drop_first(), next, cc),
        }
    }
}

proof fn lemma_lazy_node(o: MoveFormat, a: MoveFormat, b: MoveFormat, a2: MoveFormat, pos: PositionView, totals: Seq<TimeFormat>, cc: bool)
    requires
        node_rel(o, a, pos, totals, cc, false),
        node_rel(o, b, pos, totals, cc, true),
        fill_node_rel(a, a2, pos),
        node_err(o.move_, pos, cc, false) is None,
        branches_replay(o, pos, cc),
    ensures
        same_node(a2, b),
        fill_next(a.move_, a.special, pos) == node_next(o.move_, o.special, pos, cc, false),
        node_next(o.move_, o.special, pos, cc, true) == node_next(o.move_, o.special, pos, cc, false),
    decreases o, 2nat,
{
    match o.move_ {
        Some(mmf) => lemma_inference_aside(mmf, pos, cc),
        None => {},
    }
    match o.forks {
        None => {},
        Some(of) => lemma_lazy_forks(of@, a.forks->Some_0@, b.forks->Some_0@, a2.forks->Some_0@, pos, totals, cc),
    }
}

proof fn lemma_lazy_forks(o: Seq<Vec<MoveFormat>>, a: Seq<Vec<MoveFormat>>, b: Seq<Vec<MoveFormat>>, a2: Seq<Vec<MoveFormat>>, pos: PositionView, totals: Seq<TimeFormat>, cc: bool)
    requires
        forks_seq_rel(o, a, pos, totals, cc, false),
        forks_seq_rel(o, b, pos, totals, cc, true),
        fill_forks_seq_rel(a, a2, pos),
        forall|i: int| 0 <= i < o.len() ==> line_err(#[trigger] o[i]@, pos, cc, false) is None && line_replays(o[i]@, pos, cc),
    ensures
        a2.len() == b.len(),
        forall|i: int| 0 <= i < b.len() ==> same_lines(#[trigger] a2[i]@, b[i]@),
    decreases o, 1nat,
{
    if o.len() > 0 {
        lemma_line_err_aside(o[0]@, pos, cc);
        assert(fork_rel(o[0]@, a[0]@, pos, totals, cc, false));
        assert(fork_rel(o[0]@, b[0]@, pos, totals, cc, true));
        lemma_lazy_line(o[0]@, a[0]@, b[0]@, a2[0]@, pos, totals, cc);
        assert forall|i: int| 0 <= i < o.len() - 1 implies line_err(#[trigger] o.drop_first()[i]@, pos, cc, false) is None && line_replays(o.drop_first()[i]@, pos, cc) by {
            assert(o.drop_first()[i] == o[i + 1]);
        }
        lemma_lazy_forks(o.drop_first(), a.drop_first(), b.drop_first(), a2.drop_first(), pos, totals, cc);
        assert forall|i: int| 0 <= i < b.len() implies same_lines(#[trigger] a2[i]@, b[i]@) by {
            if i > 0 {
                assert(a2[i] == a2.drop_first()[i - 1]);
                assert(b[i] == b.drop_first()[i - 1]);
            }
        }
    }
}

proof fn lemma_lazy_line(o: Seq<MoveFormat>, a: Seq<MoveFormat>, b: Seq<MoveFormat>, a2: Seq<MoveFormat>, pos: PositionView, totals: Seq<TimeFormat>, cc: bool)
    requires
        line_rel(o, a, pos, totals, cc, false),
        line_rel(o, b, pos, totals, cc, true),
        fill_line_rel(a, a2, pos),
        line_err(o, pos, cc, false) is None,
        line_replays(o, pos, cc),
    ensures
        same_lines(a2, b),
    decreases o, 3nat,
{
    if o.len() > 0 {
        reveal(line_err);
        lemma_lazy_node(o[0], a[0], b[0], a2[0], pos, totals, cc);
        match node_next(o[0].move_, o[0].special, pos, cc, false) {
            None => {
                lemma_same_lines_refl(o.drop_first());
            },
            Some(next) => {
                let t = crate::normalizer::next_totals(o[0].time, totals, pos.side);
                lemma_lazy_line(o.drop_first(), a.drop_first(), b.drop_first(), a2.drop_first(), next, t, cc);
            },
        }
        assert forall|k: int| 0 <= k < b.len() implies same_node(#[trigger] a2[k], b[k]) by {
            if k > 0 {
                assert(a2[k] == a2.drop_first()[k - 1]);
                assert(b[k] == b.drop_first()[k - 1]);
            }
        }
    }
}

/// Filling in `relative` words later gives what inferring them while
/// normalizing gives: a line normalized without inference and then filled
/// in comes out node for node (branches included) as the line normalized
/// with inference, where the line replays without a fault and so does every
/// branch (a branch that fails is kept as it was by normalizing, but filled
/// in as far as it goes by the filling).
pub proof fn filling_in_later_matches_inferring(o: Seq<MoveFormat>, a: Seq<MoveFormat>, b: Seq<MoveFormat>, a2: Seq<MoveFormat>, pos: PositionView, totals: Seq<TimeFormat>, cc: bool)
    requires
        line_rel(o, a, pos, totals, cc, false),
        line_rel(o, b, pos, totals, cc, true),
        fill_line_rel(a, a2, pos),
        line_err(o, pos, cc, false) is None,
        line_replays(o, pos, cc),
    ensures
        same_lines(a2, b),
{
    lemma_lazy_line(o, a, b, a2, pos, totals, cc);
}

} // verus!
