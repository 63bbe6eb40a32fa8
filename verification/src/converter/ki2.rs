//! KI2: header, starting position, then the moves in the traditional notation
//! run together on lines, an outcome as `まで<N>手で…`, and a `変化：N手` block for
//! each branch.
//!
//! KI2 names no origins, so a move that two pieces could have made carries the
//! suffix that singles one out. The suffix is read off the position the move is
//! played from, which the writer tracks as it goes; once a move cannot be
//! applied the position is lost and the record's own `relative` is written.

use vstd::prelude::*;
use crate::converter::{finished, lemma_then_assoc, ok, outcome, then};
use crate::converter::kakinoki::{comments_text, kansuji_text, sanyou_suji_text, spec_kakinoki_header, spec_kakinoki_initial, write_comments, write_header, write_initial, write_kansuji, write_sanyou_suji};
use crate::error::ConvertError;
use crate::handicap::{spec_side_to_move_at_ply, spec_starting_side};
use crate::jkf::{Color, JsonKifuFormat, MoveFormat, MoveMoveFormat, Relative, can_promote, spec_ki2_phrase};
use crate::normalizer::{Suffix, infer_relative_from_position, spec_infer_relative};
use crate::notation::{move_word, spec_move_word, spec_promotion_is_spellable};
use crate::position::{BoardState, PositionView, move_of, spec_make_move, spec_move_of, spec_square_of, square_of};
use crate::text::{decimal, push_decimal};
use crate::converter::kif::next_ply;

verus! {

/// The suffix as written.
pub open spec fn relative_text(r: Relative) -> Seq<char> {
    match r {
        Relative::L => "左"@,
        Relative::C => "直"@,
        Relative::R => "右"@,
        Relative::U => "上"@,
        Relative::M => "寄"@,
        Relative::D => "引"@,
        Relative::LU => "左上"@,
        Relative::LM => "左寄"@,
        Relative::LD => "左引"@,
        Relative::RU => "右上"@,
        Relative::RM => "右寄"@,
        Relative::RD => "右引"@,
        Relative::H => "打"@,
    }
}

fn relative_str(r: Relative) -> (w: &'static str)
    ensures
        w@ == relative_text(r),
{
    match r {
        Relative::L => "左",
        Relative::C => "直",
        Relative::R => "右",
        Relative::U => "上",
        Relative::M => "寄",
        Relative::D => "引",
        Relative::LU => "左上",
        Relative::LM => "左寄",
        Relative::LD => "左引",
        Relative::RU => "右上",
        Relative::RM => "右寄",
        Relative::RD => "右引",
        Relative::H => "打",
    }
}

/// Whether a move that declines to promote has a `不成` to write: a drop never
/// does; a move with both ends on the board does when the notation has a word
/// for it; a move whose origin is off the board does when its piece can
/// promote (the record may have written the word itself), and one whose
/// destination alone is off the board does not.
pub open spec fn spec_promotion_was_on_the_table(m: MoveMoveFormat) -> bool {
    match m.from {
        None => false,
        Some(f) => match (spec_square_of(f), spec_square_of(m.to)) {
            (Ok(from), Ok(to)) => spec_promotion_is_spellable(m.piece, from, to, m.color),
            (Ok(_), Err(_)) => false,
            (Err(_), _) => can_promote(m.piece),
        },
    }
}

/// Whether a move that declines to promote has a `不成` to write.
pub fn promotion_was_on_the_table(m: &MoveMoveFormat) -> (b: bool)
    ensures
        b == spec_promotion_was_on_the_table(*m),
{
    let f = match m.from {
        None => return false,
        Some(f) => f,
    };
    match (square_of(&f), square_of(&m.to)) {
        (Ok(from), Ok(to)) => crate::notation::promotion_is_spellable(m.piece, from, to, m.color),
        (Ok(_), Err(_)) => false,
        (Err(_), _) => m.piece.promoted() != m.piece,
    }
}

/// Where the writer stands in a line: at the start of a text line or not, the
/// ply of the next node, and the position it is played from when that is still
/// known.
pub struct Ki2State {
    pub at_start: bool,
    pub ply: u64,
    pub pos: Option<PositionView>,
}

/// The suffix written for a move: the one the position gives it when the
/// position is known (a move it cannot single out is an error), and the
/// record's own otherwise.
pub open spec fn ki2_relative(m: MoveMoveFormat, pos: Option<PositionView>) -> Result<Option<Relative>, ConvertError> {
    match (pos, spec_move_of(m)) {
        (Some(p), Ok(mv)) => match spec_infer_relative(p, mv) {
            Suffix::Nothing => Ok(None),
            Suffix::Only(r) => Ok(Some(r)),
            Suffix::Unspellable => Err(ConvertError::UnspellableMove(mv)),
        },
        _ => Ok(m.relative),
    }
}

/// A move in the traditional notation: the mover's mark, the destination
/// (`同` for a recapture), the piece, the suffix, and `成` or `不成`.
pub open spec fn ki2_move_text(m: MoveMoveFormat, pos: Option<PositionView>) -> (Seq<char>, Option<ConvertError>) {
    then(ok(if m.color == Color::Black { "▲"@ } else { "△"@ }),
        then(ki2_destination(m), then(ok(spec_move_word(m.piece)), ki2_suffixes(m, pos))))
}

/// Where a move goes: `同` for a recapture, else the square.
pub open spec fn ki2_destination(m: MoveMoveFormat) -> (Seq<char>, Option<ConvertError>) {
    if m.same is Some { ok("同"@) } else { then(sanyou_suji_text(m.to.x), kansuji_text(m.to.y)) }
}

/// What follows the piece: the suffix, then `成` or `不成`.
pub open spec fn ki2_suffixes(m: MoveMoveFormat, pos: Option<PositionView>) -> (Seq<char>, Option<ConvertError>) {
    match ki2_relative(m, pos) {
        Err(e) => (Seq::empty(), Some(e)),
        Ok(r) => ok((match r { Some(r) => relative_text(r), None => Seq::empty() })
            + (if m.promote == Some(true) { "成"@ }
               else if m.promote == Some(false) && spec_promotion_was_on_the_table(m) { "不成"@ }
               else { Seq::empty() })),
    }
}

/// The position after a move, while it can still be tracked.
pub open spec fn ki2_next_pos(m: MoveMoveFormat, pos: Option<PositionView>) -> Option<PositionView> {
    match (pos, spec_move_of(m)) {
        (Some(p), Ok(mv)) => spec_make_move(p, mv),
        _ => None,
    }
}

/// Whose turn it is at an outcome: the position says, or, once it is lost, the
/// ply's parity from the side that starts.
pub open spec fn side_at(st: Ki2State, start: Color) -> Color {
    match st.pos {
        Some(p) => p.side,
        None => spec_side_to_move_at_ply(start, st.ply as int),
    }
}

/// The ply before this one, for `まで<N>手`.
pub open spec fn ply_before(p: u64) -> u64 {
    if p > 0 { (p - 1) as u64 } else { 0 }
}

/// What a node writes from state `st`, and the state after it. A move follows
/// the previous one after a space; an outcome, and comments, begin and end a
/// text line of their own.
pub open spec fn ki2_step(n: MoveFormat, st: Ki2State, start: Color) -> ((Seq<char>, Option<ConvertError>), Ki2State) {
    let (w1, st1) = ki2_first(n, st, start);
    let (w2, st2) = ki2_comment_part(n, st1);
    (then(w1, w2), Ki2State { ply: if n.spec_occupies_a_ply() { next_ply(st2.ply) } else { st2.ply }, ..st2 })
}

/// A node's move or outcome, and the state after it.
pub open spec fn ki2_first(n: MoveFormat, st: Ki2State, start: Color) -> ((Seq<char>, Option<ConvertError>), Ki2State) {
    match n.move_ {
        Some(m) => (
            then(ok(if st.at_start { Seq::empty() } else { " "@ }), ki2_move_text(m, st.pos)),
            Ki2State { at_start: false, ply: st.ply, pos: ki2_next_pos(m, st.pos) },
        ),
        None => match n.special {
            Some(sp) => (
                ok((if st.at_start { Seq::empty() } else { "\n"@ }) + "まで"@ + decimal(ply_before(st.ply) as nat) + "手で"@
                    + spec_ki2_phrase(sp, side_at(st, start)) + "\n"@),
                Ki2State { at_start: true, ..st },
            ),
            None => (ok(Seq::empty()), st),
        },
    }
}

/// A node's comments, on lines of their own, and the state after them.
pub open spec fn ki2_comment_part(n: MoveFormat, st: Ki2State) -> ((Seq<char>, Option<ConvertError>), Ki2State) {
    match n.comments {
        Some(c) => (ok((if st.at_start { Seq::empty() } else { "\n"@ }) + comments_text(n.comments)), Ki2State { at_start: true, ..st }),
        None => (ok(Seq::empty()), st),
    }
}

/// What the first `k` nodes of a line write from `st`, and the state after
/// them; nothing more is written once a node stops on an error.
pub open spec fn ki2_fold(moves: Seq<MoveFormat>, k: int, st: Ki2State, start: Color) -> ((Seq<char>, Option<ConvertError>), Ki2State)
    decreases k,
{
    if k <= 0 {
        (ok(Seq::empty()), st)
    } else {
        let (w, s1) = ki2_fold(moves, k - 1, st, start);
        if w.1 is Some {
            (w, s1)
        } else {
            let (w2, s2) = ki2_step(moves[k - 1], s1, start);
            (then(w, w2), s2)
        }
    }
}

/// A line's text: its nodes, closed by a line break when it ends mid-line.
pub open spec fn ki2_main(moves: Seq<MoveFormat>, st: Ki2State, start: Color) -> (Seq<char>, Option<ConvertError>) {
    let (w, end) = ki2_fold(moves, moves.len() as int, st, start);
    then(w, ok(if end.at_start { Seq::empty() } else { "\n"@ }))
}

/// The state of a line starting at ply `ply` from `pos`.
pub open spec fn line_start(ply: u64, pos: Option<PositionView>) -> Ki2State {
    Ki2State { at_start: true, ply, pos }
}

/// A line and, after it, a block for each branch leaving it: the branches of
/// the last node first, and of each node the first branch first; each block is
/// followed by the blocks of its own branches.
pub open spec fn ki2_lines(moves: Seq<MoveFormat>, ply: u64, pos: Option<PositionView>, start: Color) -> (Seq<char>, Option<ConvertError>)
    decreases moves, 2nat, 0int,
{
    then(ki2_main(moves, line_start(ply, pos), start), ki2_blocks(moves, ply, pos, start, moves.len() as int))
}

/// The branch blocks of the first `n` nodes of a line, latest node first. A
/// branch is played from the position before the node it replaces.
pub open spec fn ki2_blocks(moves: Seq<MoveFormat>, ply: u64, pos: Option<PositionView>, start: Color, n: int) -> (Seq<char>, Option<ConvertError>)
    decreases moves, 1nat, n,
{
    if n <= 0 || n > moves.len() {
        ok(Seq::empty())
    } else {
        let at = ki2_fold(moves, n - 1, line_start(ply, pos), start).1;
        then(ki2_node_blocks(moves[n - 1].forks, at.ply, at.pos, start), ki2_blocks(moves, ply, pos, start, n - 1))
    }
}

/// The blocks of one node's branches, first branch first.
pub open spec fn ki2_node_blocks(forks: Option<Vec<Vec<MoveFormat>>>, ply: u64, pos: Option<PositionView>, start: Color) -> (Seq<char>, Option<ConvertError>)
    decreases forks, 0nat, 0int,
{
    match forks {
        None => ok(Seq::empty()),
        Some(fs) => ki2_fork_blocks(fs@, ply, pos, start, 0),
    }
}

/// The blocks of branches `j` on: an empty line, `変化：N手`, and the branch.
pub open spec fn ki2_fork_blocks(fs: Seq<Vec<MoveFormat>>, ply: u64, pos: Option<PositionView>, start: Color, j: int) -> (Seq<char>, Option<ConvertError>)
    decreases fs, 0nat, fs.len() - j,
{
    if j < 0 || j >= fs.len() {
        ok(Seq::empty())
    } else {
        then(then(ok("\n変化："@ + decimal(ply as nat) + "手\n"@), ki2_lines(fs[j]@, ply, pos, start)), ki2_fork_blocks(fs, ply, pos, start, j + 1))
    }
}

/// The move section: the starting position's comments, then the moves after
/// its slot from ply 1.
pub open spec fn ki2_moves(moves: Seq<MoveFormat>, pos: Option<PositionView>, start: Color) -> (Seq<char>, Option<ConvertError>) {
    if moves.len() == 0 {
        ok(Seq::empty())
    } else {
        then(ok(comments_text(moves[0].comments)), ki2_lines(moves.drop_first(), 1, pos, start))
    }
}

/// The position a record's moves start from, when it has one.
pub open spec fn start_position(j: JsonKifuFormat) -> Option<PositionView> {
    match crate::normalizer::start_of(j.initial) {
        Ok(p) => Some(p),
        Err(_) => None,
    }
}

/// A record in KI2: header, starting position, moves.
pub open spec fn spec_ki2(j: JsonKifuFormat) -> (Seq<char>, Option<ConvertError>) {
    then(ok(spec_kakinoki_header(j.header@)), then(spec_kakinoki_initial(j.initial),
        ki2_moves(j.moves@, start_position(j), spec_starting_side(j.initial))))
}


/// The position a writer holds, as a specification sees it.
pub open spec fn pos_view(p: Option<BoardState>) -> Option<PositionView> {
    match p {
        Some(b) => Some(b@),
        None => None,
    }
}

/// `states` holds, for each of the first `n` nodes of a line, the ply and the
/// position the writer had before it.
pub open spec fn states_match(states: Seq<(u64, Option<BoardState>)>, moves: Seq<MoveFormat>, st: Ki2State, start: Color, n: int) -> bool {
    &&& states.len() == n
    &&& forall|k: int| 0 <= k < n ==> {
        let at = #[trigger] ki2_fold(moves, k, st, start).1;
        states[k].0 == at.ply && pos_view(states[k].1) == at.pos
    }
}

struct Cursor {
    at_start: bool,
    ply: u64,
    pos: Option<BoardState>,
}

impl Cursor {
    spec fn view(&self) -> Ki2State {
        Ki2State { at_start: self.at_start, ply: self.ply, pos: pos_view(self.pos) }
    }
}

fn write_relative(s: &mut String, m: &MoveMoveFormat, pos: &Option<BoardState>) -> (r: Result<(), ConvertError>)
    ensures
        match ki2_relative(*m, pos_view(*pos)) {
            Err(e) => r == Err::<(), ConvertError>(e) && final(s)@ == old(s)@,
            Ok(rel) => r is Ok && final(s)@ == old(s)@ + (match rel { Some(r) => relative_text(r), None => Seq::empty() }),
        },
{
    let rel = match (pos, move_of(m)) {
        (Some(p), Ok(mv)) => match infer_relative_from_position(p, mv) {
            Suffix::Nothing => None,
            Suffix::Only(r) => Some(r),
            Suffix::Unspellable => return Err(ConvertError::UnspellableMove(mv)),
        },
        _ => m.relative,
    };
    if let Some(r) = rel {
        s.append(relative_str(r));
    } else {
        assert(s@ =~= old(s)@ + Seq::<char>::empty());
    }
    Ok(())
}

fn write_destination(s: &mut String, m: &MoveMoveFormat) -> (r: Result<(), ConvertError>)
    ensures
        final(s)@ == old(s)@ + ki2_destination(*m).0,
        r == outcome(ki2_destination(*m)),
{
    if m.same.is_some() {
        s.append("同");
        return Ok(());
    }
    let r = write_sanyou_suji(s, m.to.x);
    if r.is_err() {
        return r;
    }
    let r = write_kansuji(s, m.to.y);
    assert(s@ =~= old(s)@ + ki2_destination(*m).0);
    r
}

fn write_suffixes(s: &mut String, m: &MoveMoveFormat, pos: &Option<BoardState>) -> (r: Result<(), ConvertError>)
    ensures
        final(s)@ == old(s)@ + ki2_suffixes(*m, pos_view(*pos)).0,
        r == outcome(ki2_suffixes(*m, pos_view(*pos))),
{
    let r = write_relative(s, m, pos);
    if r.is_err() {
        assert(s@ =~= old(s)@ + ki2_suffixes(*m, pos_view(*pos)).0);
        return r;
    }
    let ghost rel = s@;
    if m.promote == Some(true) {
        s.append("成");
    } else if m.promote == Some(false) && promotion_was_on_the_table(m) {
        s.append("不成");
    }
    assert(s@ =~= old(s)@ + ki2_suffixes(*m, pos_view(*pos)).0);
    Ok(())
}

fn write_move_text(s: &mut String, m: &MoveMoveFormat, pos: &Option<BoardState>) -> (r: Result<(), ConvertError>)
    ensures
        final(s)@ == old(s)@ + ki2_move_text(*m, pos_view(*pos)).0,
        r == outcome(ki2_move_text(*m, pos_view(*pos))),
{
    match m.color {
        Color::Black => s.append("▲"),
        Color::White => s.append("△"),
    }
    let ghost mark = s@;
    let r = write_destination(s, m);
    if r.is_err() {
        assert(s@ =~= old(s)@ + ki2_move_text(*m, pos_view(*pos)).0);
        return r;
    }
    let ghost dest = s@;
    s.append(move_word(m.piece));
    let ghost word = s@;
    let r = write_suffixes(s, m, pos);
    assert(s@ =~= old(s)@ + ki2_move_text(*m, pos_view(*pos)).0);
    r
}

fn next_position(m: &MoveMoveFormat, pos: &Option<BoardState>) -> (r: Option<BoardState>)
    ensures
        pos_view(r) == ki2_next_pos(*m, pos_view(*pos)),
{
    match (pos, move_of(m)) {
        (Some(p), Ok(mv)) => {
            let mut q = *p;
            if q.make_move(mv).is_some() {
                Some(q)
            } else {
                None
            }
        },
        _ => None,
    }
}

fn write_first(s: &mut String, n: &MoveFormat, cur: &mut Cursor, start: Color) -> (r: Result<(), ConvertError>)
    ensures
        final(s)@ == old(s)@ + ki2_first(*n, old(cur).view(), start).0.0,
        r == outcome(ki2_first(*n, old(cur).view(), start).0),
        r is Ok ==> final(cur).view() == ki2_first(*n, old(cur).view(), start).1,
{
    let ghost st = cur.view();
    match &n.move_ {
        Some(m) => {
            if !cur.at_start {
                s.append(" ");
            }
            let ghost sep = s@;
            let r = write_move_text(s, m, &cur.pos);
            if r.is_err() {
                assert(s@ =~= old(s)@ + ki2_first(*n, st, start).0.0);
                return r;
            }
            cur.pos = next_position(m, &cur.pos);
            cur.at_start = false;
            assert(s@ =~= old(s)@ + ki2_first(*n, st, start).0.0);
            Ok(())
        },
        None => match n.special {
            Some(sp) => {
                if !cur.at_start {
                    s.append("\n");
                }
                let side = match &cur.pos {
                    Some(p) => p.side_to_move(),
                    None => if cur.ply % 2 == 1 { start } else { start.flip() },
                };
                s.append("まで");
                push_decimal(s, if cur.ply > 0 { cur.ply - 1 } else { 0 }, 0, ' ');
                s.append("手で");
                let phrase = sp.ki2_phrase(side);
                s.append(phrase.as_str());
                s.append("\n");
                cur.at_start = true;
                assert(s@ =~= old(s)@ + ki2_first(*n, st, start).0.0);
                Ok(())
            },
            None => {
                assert(s@ =~= old(s)@ + ki2_first(*n, st, start).0.0);
                Ok(())
            },
        },
    }
}

fn write_step(s: &mut String, n: &MoveFormat, cur: &mut Cursor, start: Color) -> (r: Result<(), ConvertError>)
    ensures
        final(s)@ == old(s)@ + ki2_step(*n, old(cur).view(), start).0.0,
        r == outcome(ki2_step(*n, old(cur).view(), start).0),
        r is Ok ==> final(cur).view() == ki2_step(*n, old(cur).view(), start).1,
{
    let ghost st = cur.view();
    let r = write_first(s, n, cur, start);
    if r.is_err() {
        return r;
    }
    let ghost mid = s@;
    let ghost st1 = cur.view();
    if n.comments.is_some() {
        if !cur.at_start {
            s.append("\n");
        }
        write_comments(s, &n.comments);
        cur.at_start = true;
    }
    assert(s@ =~= mid + ki2_comment_part(*n, st1).0.0);
    if n.occupies_a_ply() && cur.ply < u64::MAX {
        cur.ply = cur.ply + 1;
    }
    assert(s@ =~= old(s)@ + ki2_step(*n, st, start).0.0);
    Ok(())
}

proof fn lemma_fold_step(moves: Seq<MoveFormat>, k: int, st: Ki2State, start: Color)
    requires
        0 <= k,
        ki2_fold(moves, k, st, start).0.1 is None,
    ensures
        ki2_fold(moves, k + 1, st, start) == ({
            let (w, s1) = ki2_fold(moves, k, st, start);
            let (w2, s2) = ki2_step(moves[k], s1, start);
            (then(w, w2), s2)
        }),
{
}

proof fn lemma_fold_stop(moves: Seq<MoveFormat>, k: int, j: int, st: Ki2State, start: Color)
    requires
        0 <= k <= j,
        ki2_fold(moves, k, st, start).0.1 is Some,
    ensures
        ki2_fold(moves, j, st, start) == ki2_fold(moves, k, st, start),
    decreases j - k,
{
    if j > k {
        lemma_fold_stop(moves, k, j - 1, st, start);
    }
}

/// Writes the nodes of `moves[from..]` and records, for each, the ply and the
/// position before it.
fn write_main(s: &mut String, moves: &Vec<MoveFormat>, from: usize, ply: u64, pos: Option<BoardState>, start: Color)
    -> (r: (Result<(), ConvertError>, Vec<(u64, Option<BoardState>)>))
    requires
        from <= moves@.len(),
    ensures
        final(s)@ == old(s)@ + ki2_main(moves@.skip(from as int), line_start(ply, pos_view(pos)), start).0,
        r.0 == outcome(ki2_main(moves@.skip(from as int), line_start(ply, pos_view(pos)), start)),
        r.0 is Ok ==> states_match(r.1@, moves@.skip(from as int), line_start(ply, pos_view(pos)), start, (moves@.len() - from) as int),
{
    let ghost tail = moves@.skip(from as int);
    let ghost st0 = line_start(ply, pos_view(pos));
    let mut cur = Cursor { at_start: true, ply, pos };
    let mut states: Vec<(u64, Option<BoardState>)> = Vec::new();
    let mut k: usize = from;
    while k < moves.len()
        invariant
            from <= k <= moves@.len(),
            tail == moves@.skip(from as int),
            st0 == line_start(ply, pos_view(pos)),
            s@ == old(s)@ + ki2_fold(tail, k - from, st0, start).0.0,
            ki2_fold(tail, k - from, st0, start).0.1 is None,
            cur.view() == ki2_fold(tail, k - from, st0, start).1,
            states_match(states@, tail, st0, start, k - from),
        decreases moves@.len() - k,
    {
        states.push((cur.ply, cur.pos));
        assert(tail[k - from] == moves@[k as int]);
        let ghost before = cur.view();
        let r = write_step(s, &moves[k], &mut cur, start);
        proof { lemma_fold_step(tail, k - from, st0, start); }
        if r.is_err() {
            proof {
                lemma_fold_stop(tail, k - from + 1, tail.len() as int, st0, start);
            }
            return (r, states);
        }
        k = k + 1;
    }
    assert(tail.len() == k - from);
    if !cur.at_start {
        s.append("\n");
    } else {
        assert(s@ =~= s@ + Seq::<char>::empty());
    }
    (Ok(()), states)
}

/// Appends the line `moves[from..]` and its branch blocks (see [`ki2_lines`]).
fn write_lines(s: &mut String, moves: &Vec<MoveFormat>, from: usize, ply: u64, pos: Option<BoardState>, start: Color) -> (r: Result<(), ConvertError>)
    requires
        from <= moves@.len(),
    ensures
        final(s)@ == old(s)@ + ki2_lines(moves@.skip(from as int), ply, pos_view(pos), start).0,
        r == outcome(ki2_lines(moves@.skip(from as int), ply, pos_view(pos), start)),
    decreases moves@, 2nat,
{
    let ghost tail = moves@.skip(from as int);
    let (r, states) = write_main(s, moves, from, ply, pos, start);
    if r.is_err() {
        return r;
    }
    let ghost base = s@;
    let mut n = moves.len() - from;
    assert(s@.subrange(base.len() as int, s@.len() as int) =~= Seq::<char>::empty());
    assert(s@.subrange(0, base.len() as int) =~= base);
    while n > 0
        invariant
            n <= tail.len(),
            n + from <= moves.len(),
            tail == moves@.skip(from as int),
            states_match(states@, tail, line_start(ply, pos_view(pos)), start, tail.len() as int),
            base == old(s)@ + ki2_main(tail, line_start(ply, pos_view(pos)), start).0,
            ki2_main(tail, line_start(ply, pos_view(pos)), start).1 is None,
            ki2_blocks(tail, ply, pos_view(pos), start, tail.len() as int)
                == then(ok(s@.subrange(base.len() as int, s@.len() as int)), ki2_blocks(tail, ply, pos_view(pos), start, n as int)),
            base.len() <= s@.len(),
            s@.subrange(0, base.len() as int) == base,
        decreases n,
    {
        let ghost before = s@;
        let ghost w = s@.subrange(base.len() as int, s@.len() as int);
        assert(tail[n - 1] == moves@[from + n - 1]);
        proof {
            assert(decreases_to!(moves@ => moves@[from + n - 1]));
        }
        let (at_ply, at_pos) = states[n - 1];
        let r = write_node_blocks(s, &moves[from + n - 1].forks, at_ply, at_pos, start);
        let ghost t = s@.subrange(before.len() as int, s@.len() as int);
        proof {
            let at = ki2_fold(tail, n - 1, line_start(ply, pos_view(pos)), start).1;
            let nb = ki2_node_blocks(tail[n - 1].forks, at.ply, at.pos, start);
            assert(t =~= nb.0);
            lemma_then_assoc(ok(w), nb, ki2_blocks(tail, ply, pos_view(pos), start, n - 1));
            assert(s@.subrange(base.len() as int, s@.len() as int) =~= w + t);
            assert(s@.subrange(0, base.len() as int) =~= base);
            assert(s@ =~= base + (w + t));
        }
        if r.is_err() {
            assert(s@ =~= old(s)@ + ki2_lines(tail, ply, pos_view(pos), start).0);
            return r;
        }
        n = n - 1;
    }
    assert(s@ =~= base + s@.subrange(base.len() as int, s@.len() as int));
    assert(s@ =~= old(s)@ + ki2_lines(tail, ply, pos_view(pos), start).0);
    Ok(())
}

fn write_node_blocks(s: &mut String, forks: &Option<Vec<Vec<MoveFormat>>>, ply: u64, pos: Option<BoardState>, start: Color) -> (r: Result<(), ConvertError>)
    ensures
        final(s)@ == old(s)@ + ki2_node_blocks(*forks, ply, pos_view(pos), start).0,
        r == outcome(ki2_node_blocks(*forks, ply, pos_view(pos), start)),
    decreases *forks, 1nat,
{
    match forks {
        None => {
            assert(s@ =~= old(s)@ + ki2_node_blocks(*forks, ply, pos_view(pos), start).0);
            Ok(())
        },
        Some(fs) => {
            proof {
                broadcast use vstd::std_specs::vec::axiom_vec_decreases_to_view;
            }
            write_fork_blocks(s, fs, ply, pos, start)
        },
    }
}

#[verifier::rlimit(40)]
fn write_fork_blocks(s: &mut String, fs: &Vec<Vec<MoveFormat>>, ply: u64, pos: Option<BoardState>, start: Color) -> (r: Result<(), ConvertError>)
    ensures
        final(s)@ == old(s)@ + ki2_fork_blocks(fs@, ply, pos_view(pos), start, 0).0,
        r == outcome(ki2_fork_blocks(fs@, ply, pos_view(pos), start, 0)),
    decreases fs@, 0nat,
{
    let ghost base = s@;
    let mut j: usize = 0;
    assert(s@.subrange(base.len() as int, s@.len() as int) =~= Seq::<char>::empty());
    assert(s@.subrange(0, base.len() as int) =~= base);
    while j < fs.len()
        invariant
            j <= fs@.len(),
            ki2_fork_blocks(fs@, ply, pos_view(pos), start, 0)
                == then(ok(s@.subrange(base.len() as int, s@.len() as int)), ki2_fork_blocks(fs@, ply, pos_view(pos), start, j as int)),
            base.len() <= s@.len(),
            s@.subrange(0, base.len() as int) == base,
            base == old(s)@,
        decreases fs@.len() - j,
    {
        let ghost before = s@;
        let ghost w = s@.subrange(base.len() as int, s@.len() as int);
        s.append("\n変化：");
        push_decimal(s, ply, 0, ' ');
        s.append("手\n");
        proof {
            broadcast use vstd::std_specs::vec::axiom_vec_decreases_to_view;
            assert(decreases_to!(fs@ => fs@[j as int]));
            assert(fs@[j as int]@.skip(0) =~= fs@[j as int]@);
        }
        let r = write_lines(s, &fs[j], 0, ply, pos, start);
        let ghost t = s@.subrange(before.len() as int, s@.len() as int);
        proof {
            let hd = ok("\n変化："@ + decimal(ply as nat) + "手\n"@);
            let bl = then(hd, ki2_lines(fs@[j as int]@, ply, pos_view(pos), start));
            assert(t =~= bl.0);
            lemma_then_assoc(ok(w), bl, ki2_fork_blocks(fs@, ply, pos_view(pos), start, j + 1));
            assert(s@.subrange(base.len() as int, s@.len() as int) =~= w + t);
            assert(s@.subrange(0, base.len() as int) =~= base);
            assert(s@ =~= base + (w + t));
        }
        if r.is_err() {
            assert(s@ =~= old(s)@ + ki2_fork_blocks(fs@, ply, pos_view(pos), start, 0).0);
            return r;
        }
        j = j + 1;
    }
    assert(s@ =~= base + s@.subrange(base.len() as int, s@.len() as int));
    assert(s@ =~= old(s)@ + ki2_fork_blocks(fs@, ply, pos_view(pos), start, 0).0);
    Ok(())
}

fn write_moves(s: &mut String, moves: &Vec<MoveFormat>, pos: Option<BoardState>, start: Color) -> (r: Result<(), ConvertError>)
    ensures
        final(s)@ == old(s)@ + ki2_moves(moves@, pos_view(pos), start).0,
        r == outcome(ki2_moves(moves@, pos_view(pos), start)),
{
    if moves.len() == 0 {
        assert(s@ =~= old(s)@ + ki2_moves(moves@, pos_view(pos), start).0);
        return Ok(());
    }
    write_comments(s, &moves[0].comments);
    assert(moves@.skip(1) =~= moves@.drop_first());
    let r = write_lines(s, moves, 1, 1, pos, start);
    assert(s@ =~= old(s)@ + ki2_moves(moves@, pos_view(pos), start).0);
    r
}

/// A record that can be written in KI2.
pub trait ToKi2 {
    /// Appends `self` in KI2 to `sink`. A number the notation cannot spell, a
    /// preset with no board, or a move the notation cannot single out is an
    /// error; what was written before it stays.
    fn to_ki2(&self, sink: &mut String) -> Result<(), ConvertError>;

    /// `self` in KI2, or the error that stopped it.
    fn try_to_ki2_owned(&self) -> Result<String, ConvertError>;

    /// `self` in KI2, or as much of it as could be written.
    fn to_ki2_owned(&self) -> String;
}

impl ToKi2 for JsonKifuFormat {
    fn to_ki2(&self, sink: &mut String) -> (r: Result<(), ConvertError>)
        ensures
            final(sink)@ == old(sink)@ + spec_ki2(*self).0,
            r == outcome(spec_ki2(*self)),
    {
        write_header(sink, &self.header);
        let r = write_initial(sink, &self.initial);
        if r.is_err() {
            assert(sink@ =~= old(sink)@ + spec_ki2(*self).0);
            return r;
        }
        let start = crate::handicap::starting_side(match &self.initial { Some(i) => Some(i), None => None });
        let pos = self.starting_position();
        assert(pos_view(pos) == start_position(*self));
        let r = write_moves(sink, &self.moves, pos, start);
        assert(sink@ =~= old(sink)@ + spec_ki2(*self).0);
        r
    }

    fn try_to_ki2_owned(&self) -> (r: Result<String, ConvertError>)
        ensures
            match r {
                Ok(s) => finished(spec_ki2(*self)) == Ok::<Seq<char>, ConvertError>(s@),
                Err(e) => finished(spec_ki2(*self)) == Err::<Seq<char>, ConvertError>(e),
            },
    {
        let mut s = String::new();
        match self.to_ki2(&mut s) {
            Ok(()) => {
                assert(s@ =~= spec_ki2(*self).0);
                Ok(s)
            },
            Err(e) => Err(e),
        }
    }

    fn to_ki2_owned(&self) -> (s: String)
        ensures
            s@ == spec_ki2(*self).0,
    {
        let mut s = String::new();
        let _ = self.to_ki2(&mut s);
        assert(s@ =~= spec_ki2(*self).0);
        s
    }
}
} // verus!
