//! What filling in `relative` words does to a record, and that doing it
//! twice does nothing more.

use vstd::prelude::*;
use crate::jkf::{MoveFormat, MoveMoveFormat};
use crate::normalizer::{fill_forks_seq_rel, fill_line_err, fill_line_rel, fill_move, fill_next, fill_node_rel};
use crate::position::{spec_move_of, PositionView};

verus! {

/// Whether the move `n` is `o` with its relative word filled in if it had
/// none: everything else the same, and a word it had kept.
pub open spec fn move_filled(o: Option<MoveMoveFormat>, n: Option<MoveMoveFormat>) -> bool {
    match o {
        None => n is None,
        Some(a) => n matches Some(b) && b == (MoveMoveFormat { relative: b.relative, ..a })
            && (a.relative is Some ==> b.relative == a.relative),
    }
}

/// Whether `n` is `o` with only empty relative words filled in: the same
/// comments, outcome and time, the same move but for a relative word it did
/// not have, and branch for branch the same.
pub open spec fn fills_only_empty(o: MoveFormat, n: MoveFormat) -> bool
    decreases o,
{
    &&& n.comments == o.comments
    &&& n.special == o.special
    &&& n.time == o.time
    &&& move_filled(o.move_, n.move_)
    &&& match o.forks {
        None => n.forks is None,
        Some(of) => n.forks matches Some(nf) && nf@.len() == of@.len()
            && forall|i: int| 0 <= i < of@.len() ==> lines_fill_only_empty(#[trigger] of@[i]@, nf@[i]@),
    }
}

/// [`fills_only_empty`] node for node along a line.
pub open spec fn lines_fill_only_empty(o: Seq<MoveFormat>, n: Seq<MoveFormat>) -> bool
    decreases o,
{
    &&& o.len() == n.len()
    &&& forall|k: int| 0 <= k < o.len() ==> fills_only_empty(#[trigger] o[k], n[k])
}

/// Whether `a` and `b` are the same node: the same fields, and branch for
/// branch the same lines.
pub open spec fn same_node(a: MoveFormat, b: MoveFormat) -> bool
    decreases a,
{
    &&& a.comments == b.comments
    &&& a.special == b.special
    &&& a.time == b.time
    &&& a.move_ == b.move_
    &&& match a.forks {
        None => b.forks is None,
        Some(af) => b.forks matches Some(bf) && bf@.len() == af@.len()
            && forall|i: int| 0 <= i < af@.len() ==> same_lines(#[trigger] af@[i]@, bf@[i]@),
    }
}

/// [`same_node`] node for node along a line.
pub open spec fn same_lines(a: Seq<MoveFormat>, b: Seq<MoveFormat>) -> bool
    decreases a,
{
    &&& a.len() == b.len()
    &&& forall|k: int| 0 <= k < a.len() ==> same_node(#[trigger] a[k], b[k])
}

proof fn lemma_fills_refl(o: MoveFormat)
    ensures
        fills_only_empty(o, o),
        same_node(o, o),
    decreases o, 1nat,
{
    match o.forks {
        None => {},
        Some(of) => {
            assert forall|i: int| 0 <= i < of@.len() implies lines_fill_only_empty(#[trigger] of@[i]@, of@[i]@) && same_lines(of@[i]@, of@[i]@) by {
                lemma_lines_fill_refl(of@[i]@);
            }
        },
    }
}

proof fn lemma_lines_fill_refl(o: Seq<MoveFormat>)
    ensures
        lines_fill_only_empty(o, o),
        same_lines(o, o),
    decreases o, 0nat,
{
    assert forall|k: int| 0 <= k < o.len() implies fills_only_empty(#[trigger] o[k], o[k]) && same_node(o[k], o[k]) by {
        lemma_fills_refl(o[k]);
    }
}

/// Filling a move in twice fills it as once, and the move it stands for is
/// the same either way.
proof fn lemma_fill_move(m: Option<MoveMoveFormat>, pos: PositionView)
    ensures
        fill_move(fill_move(m, pos), pos) == fill_move(m, pos),
        move_filled(m, fill_move(m, pos)),
        m matches Some(a) ==> fill_move(m, pos) matches Some(b) && spec_move_of(b) == spec_move_of(a),
{
}

proof fn lemma_node_fill(o: MoveFormat, n: MoveFormat, pos: PositionView)
    requires
        fill_node_rel(o, n, pos),
    ensures
        fills_only_empty(o, n),
    decreases o, 2nat,
{
    lemma_fill_move(o.move_, pos);
    match o.forks {
        None => {},
        Some(of) => lemma_forks_fill(of@, n.forks->Some_0@, pos),
    }
}

proof fn lemma_forks_fill(o: Seq<Vec<MoveFormat>>, n: Seq<Vec<MoveFormat>>, pos: PositionView)
    requires
        fill_forks_seq_rel(o, n, pos),
    ensures
        n.len() == o.len(),
        forall|i: int| 0 <= i < o.len() ==> lines_fill_only_empty(#[trigger] o[i]@, n[i]@),
    decreases o, 1nat,
{
    if o.len() > 0 {
        lemma_line_fill(o[0]@, n[0]@, pos);
        lemma_forks_fill(o.drop_first(), n.drop_first(), pos);
        assert forall|i: int| 0 <= i < o.len() implies lines_fill_only_empty(#[trigger] o[i]@, n[i]@) by {
            if i > 0 {
                assert(o[i] == o.drop_first()[i - 1]);
                assert(n[i] == n.drop_first()[i - 1]);
            }
        }
    }
}

proof fn lemma_line_fill(o: Seq<MoveFormat>, n: Seq<MoveFormat>, pos: PositionView)
    requires
        fill_line_rel(o, n, pos),
    ensures
        lines_fill_only_empty(o, n),
    decreases o, 3nat,
{
    if o.len() > 0 {
        lemma_node_fill(o[0], n[0], pos);
        match fill_next(o[0].move_, o[0].special, pos) {
            None => lemma_lines_fill_refl(o.drop_first()),
            Some(next) => lemma_line_fill(o.drop_first(), n.drop_first(), next),
        }
        assert forall|k: int| 0 <= k < o.len() implies fills_only_empty(#[trigger] o[k], n[k]) by {
            if k > 0 {
                assert(o[k] == o.drop_first()[k - 1]);
                assert(n[k] == n.drop_first()[k - 1]);
            }
        }
    }
}

/// Filling in `relative` words changes nothing else: every node of the line
/// and of its branches keeps its comments, outcome, time and move, but for a
/// relative word the move did not have; a word it had is kept.
pub proof fn filling_in_relative_words_changes_nothing_else(old: Seq<MoveFormat>, new: Seq<MoveFormat>, pos: PositionView)
    requires
        fill_line_rel(old, new, pos),
    ensures
        lines_fill_only_empty(old, new),
{
    lemma_line_fill(old, new, pos);
}

proof fn lemma_node_twice(o: MoveFormat, n: MoveFormat, n2: MoveFormat, pos: PositionView)
    requires
        fill_node_rel(o, n, pos),
        fill_node_rel(n, n2, pos),
    ensures
        same_node(n, n2),
        fill_next(n.move_, n.special, pos) == fill_next(o.move_, o.special, pos),
        crate::normalizer::fill_err(n.move_, pos) == crate::normalizer::fill_err(o.move_, pos),
    decreases o, 2nat,
{
    lemma_fill_move(o.move_, pos);
    match o.forks {
        None => {},
        Some(of) => lemma_forks_twice(of@, n.forks->Some_0@, n2.forks->Some_0@, pos),
    }
}

proof fn lemma_forks_twice(o: Seq<Vec<MoveFormat>>, n: Seq<Vec<MoveFormat>>, n2: Seq<Vec<MoveFormat>>, pos: PositionView)
    requires
        fill_forks_seq_rel(o, n, pos),
        fill_forks_seq_rel(n, n2, pos),
    ensures
        n.len() == o.len(),
        n2.len() == n.len(),
        forall|i: int| 0 <= i < n.len() ==> same_lines(#[trigger] n[i]@, n2[i]@),
    decreases o, 1nat,
{
    if o.len() > 0 {
        lemma_line_twice(o[0]@, n[0]@, n2[0]@, pos);
        lemma_forks_twice(o.drop_first(), n.drop_first(), n2.drop_first(), pos);
        assert forall|i: int| 0 <= i < n.len() implies same_lines(#[trigger] n[i]@, n2[i]@) by {
            if i > 0 {
                assert(n[i] == n.drop_first()[i - 1]);
                assert(n2[i] == n2.drop_first()[i - 1]);
            }
        }
    }
}

proof fn lemma_line_twice(o: Seq<MoveFormat>, n: Seq<MoveFormat>, n2: Seq<MoveFormat>, pos: PositionView)
    requires
        fill_line_rel(o, n, pos),
        fill_line_rel(n, n2, pos),
    ensures
        same_lines(n, n2),
        fill_line_err(n, pos) == fill_line_err(o, pos),
    decreases o, 3nat,
{
    if o.len() > 0 {
        lemma_node_twice(o[0], n[0], n2[0], pos);
        match fill_next(o[0].move_, o[0].special, pos) {
            None => {
                assert(n2.drop_first() == n.drop_first());
                lemma_lines_fill_refl(n.drop_first());
            },
            Some(next) => lemma_line_twice(o.drop_first(), n.drop_first(), n2.drop_first(), next),
        }
        assert forall|k: int| 0 <= k < n.len() implies same_node(#[trigger] n[k], n2[k]) by {
            if k > 0 {
                assert(n[k] == n.drop_first()[k - 1]);
                assert(n2[k] == n2.drop_first()[k - 1]);
            }
        }
    }
}

/// Filling in `relative` words a second time changes nothing: the line comes
/// out node for node (branches included) as the first time left it, and it
/// fails, or does not, where the first time did.
pub proof fn filling_in_relative_words_twice_changes_nothing(old: Seq<MoveFormat>, new: Seq<MoveFormat>, again: Seq<MoveFormat>, pos: PositionView)
    requires
        fill_line_rel(old, new, pos),
        fill_line_rel(new, again, pos),
    ensures
        same_lines(new, again),
        fill_line_err(new, pos) == fill_line_err(old, pos),
{
    lemma_line_twice(old, new, again, pos);
}

} // verus!
