//! The KI2 move list: moves written one after another with a side mark
//! each, the comments under them, the `まで…` line that states the outcome,
//! and the `変化：N手` blocks whose runs become branches.

use vstd::prelude::*;
use crate::handicap::{side_to_move_at_ply, spec_side_to_move_at_ply};
use crate::jkf::{Color, MoveFormat, MoveMoveFormat, MoveSpecial, PlaceFormat, Relative};
use crate::normalizer::{origin_unstated, spec_origin_unstated};
use crate::parser::header_block::{
    comment_line_exec, not_line_ending, ends_here, ends_here_exec, not_move_line_at, refusal_is,
    spec_comment_line, spec_not_move_line, LineFault, Refusal,
};
use crate::parser::kakinoki::{
    char_at, char_at_exec, line_ending_at, line_ending_exec, line_stop, line_stop_exec,
    lit_at, lit_at_exec, move_to, move_to_exec, opens_a_shared_line_at, padding_end,
    piece_word, piece_word_exec, side_mark_at, skip_padding, space_end, space_end_exec,
    spec_ends_a_word, spec_opens_a_shared_line, ends_a_word, LineShapes,
};
use crate::parser::tree::{
    lemma_header_comments, lemma_leaves, lemma_lines_concat, lemma_lines_update, lemma_pushed_fork,
    lemma_tree_unfold, leaf, leaves, lines_are, record_read, runs_are_trees, tree_is, with_fork, NodeT,
};
use crate::parser::kif::{
    lemma_run_trees, run_trees, bare_node, branch_header_at_line, branch_header_at_line_exec, comment_run, comments_at,
    header_start, lemma_run_appended, node_is, nodes_are, runs_are,
};
use crate::parser::header_block::{
    comments_on_the_starting_position, header_block_at, spec_parse_without_moves, HeaderBlock,
    HeaderView,
};
use crate::handicap::starting_side;
use crate::jkf::JsonKifuFormat;

verus! {

/// The relative word at `i`, if one stands there, and where it ends:
/// `左上` `左寄` `左引` `右上` `右寄` `右引` `左` `直` `右` `上` (or `行`, how
/// print writes it for a rook or bishop) `寄` `引` `打`.
pub open spec fn relative_word(s: Seq<char>, i: int) -> Option<(Relative, int)> {
    if char_at(s, i, '左') && char_at(s, i + 1, '上') { Some((Relative::LU, i + 2)) }
    else if char_at(s, i, '左') && char_at(s, i + 1, '寄') { Some((Relative::LM, i + 2)) }
    else if char_at(s, i, '左') && char_at(s, i + 1, '引') { Some((Relative::LD, i + 2)) }
    else if char_at(s, i, '右') && char_at(s, i + 1, '上') { Some((Relative::RU, i + 2)) }
    else if char_at(s, i, '右') && char_at(s, i + 1, '寄') { Some((Relative::RM, i + 2)) }
    else if char_at(s, i, '右') && char_at(s, i + 1, '引') { Some((Relative::RD, i + 2)) }
    else if char_at(s, i, '左') { Some((Relative::L, i + 1)) }
    else if char_at(s, i, '直') { Some((Relative::C, i + 1)) }
    else if char_at(s, i, '右') { Some((Relative::R, i + 1)) }
    else if char_at(s, i, '上') || char_at(s, i, '行') { Some((Relative::U, i + 1)) }
    else if char_at(s, i, '寄') { Some((Relative::M, i + 1)) }
    else if char_at(s, i, '引') { Some((Relative::D, i + 1)) }
    else if char_at(s, i, '打') { Some((Relative::H, i + 1)) }
    else { None }
}

fn relative_word_exec(s: &Vec<char>, i: usize) -> (r: Option<(Relative, usize)>)
    ensures
        match relative_word(s@, i as int) {
            Some((w, e)) => r matches Some((v, f)) && v == w && f == e && e <= s@.len(),
            None => r is None,
        },
{
    if char_at_exec(s, i, '左') && char_at_exec(s, i + 1, '上') { Some((Relative::LU, i + 2)) }
    else if char_at_exec(s, i, '左') && char_at_exec(s, i + 1, '寄') { Some((Relative::LM, i + 2)) }
    else if char_at_exec(s, i, '左') && char_at_exec(s, i + 1, '引') { Some((Relative::LD, i + 2)) }
    else if char_at_exec(s, i, '右') && char_at_exec(s, i + 1, '上') { Some((Relative::RU, i + 2)) }
    else if char_at_exec(s, i, '右') && char_at_exec(s, i + 1, '寄') { Some((Relative::RM, i + 2)) }
    else if char_at_exec(s, i, '右') && char_at_exec(s, i + 1, '引') { Some((Relative::RD, i + 2)) }
    else if char_at_exec(s, i, '左') { Some((Relative::L, i + 1)) }
    else if char_at_exec(s, i, '直') { Some((Relative::C, i + 1)) }
    else if char_at_exec(s, i, '右') { Some((Relative::R, i + 1)) }
    else if char_at_exec(s, i, '上') || char_at_exec(s, i, '行') { Some((Relative::U, i + 1)) }
    else if char_at_exec(s, i, '寄') { Some((Relative::M, i + 1)) }
    else if char_at_exec(s, i, '引') { Some((Relative::D, i + 1)) }
    else if char_at_exec(s, i, '打') { Some((Relative::H, i + 1)) }
    else { None }
}

/// The promotion word at `i`, if one stands there, and where it ends:
/// `不成` or `生` (as print writes it) for a move that does not promote,
/// `成` for one that does.
pub open spec fn promotion_word(s: Seq<char>, i: int) -> Option<(bool, int)> {
    if char_at(s, i, '不') && char_at(s, i + 1, '成') { Some((false, i + 2)) }
    else if char_at(s, i, '生') { Some((false, i + 1)) }
    else if char_at(s, i, '成') { Some((true, i + 1)) }
    else { None }
}

fn promotion_word_exec(s: &Vec<char>, i: usize) -> (r: Option<(bool, usize)>)
    ensures
        match promotion_word(s@, i as int) {
            Some((w, e)) => r matches Some((v, f)) && v == w && f == e && e <= s@.len(),
            None => r is None,
        },
{
    if char_at_exec(s, i, '不') && char_at_exec(s, i + 1, '成') { Some((false, i + 2)) }
    else if char_at_exec(s, i, '生') { Some((false, i + 1)) }
    else if char_at_exec(s, i, '成') { Some((true, i + 1)) }
    else { None }
}

/// A KI2 move at `i` and where it ends: the side mark, where the move goes
/// (`同` for where the move before went), the piece, a relative word and a
/// promotion word if they are there. KI2 writes no origin: a move marked
/// `打` is a drop, and any other has its origin unstated, to be found from
/// the position.
pub open spec fn spec_ki2_move(s: Seq<char>, i: int) -> Option<(MoveMoveFormat, int)> {
    if !side_mark_at(s, i) {
        None
    } else {
        match move_to(s, i + 1) {
            None => None,
            Some((to, b)) => match piece_word(s, b) {
                None => None,
                Some((piece, c)) => {
                    let (relative, d) = match relative_word(s, c) {
                        Some((r, d)) => (Some(r), d),
                        None => (None, c),
                    };
                    let (promote, e) = match promotion_word(s, d) {
                        Some((p, e)) => (Some(p), e),
                        None => (None, d),
                    };
                    Some((MoveMoveFormat {
                        color: if char_at(s, i, '▲') { Color::Black } else { Color::White },
                        from: if relative == Some(Relative::H) { None } else { Some(spec_origin_unstated()) },
                        to: match to {
                            Some(p) => p,
                            None => PlaceFormat { x: 0, y: 0 },
                        },
                        piece,
                        same: if to is None { Some(true) } else { None },
                        promote,
                        capture: None,
                        relative,
                    }, e))
                },
            },
        }
    }
}

/// Reads a KI2 move at `i` (see [`spec_ki2_move`]).
pub fn ki2_move_at(s: &Vec<char>, i: usize) -> (r: Option<(MoveMoveFormat, usize)>)
    ensures
        match spec_ki2_move(s@, i as int) {
            Some((m, e)) => r matches Some((n, f)) && n == m && f == e && e <= s@.len(),
            None => r is None,
        },
{
    if !(char_at_exec(s, i, '▲') || char_at_exec(s, i, '△')) {
        return None;
    }
    let color = if char_at_exec(s, i, '▲') { Color::Black } else { Color::White };
    let (to, b) = match move_to_exec(s, i + 1) {
        None => return None,
        Some(x) => x,
    };
    let (piece, c) = match piece_word_exec(s, b) {
        None => return None,
        Some(x) => x,
    };
    let (relative, d) = match relative_word_exec(s, c) {
        Some((r, d)) => (Some(r), d),
        None => (None, c),
    };
    let (promote, e) = match promotion_word_exec(s, d) {
        Some((p, e)) => (Some(p), e),
        None => (None, d),
    };
    let drop = match relative {
        Some(Relative::H) => true,
        _ => false,
    };
    Some((MoveMoveFormat {
        color,
        from: if drop { None } else { Some(origin_unstated()) },
        to: match to {
            Some(p) => p,
            None => PlaceFormat { x: 0, y: 0 },
        },
        piece,
        same: if to.is_none() { Some(true) } else { None },
        promote,
        capture: None,
        relative,
    }, e))
}

/// A KI2 move at `i` with what follows it: spaces and tabs, a line ending if
/// there is one, and the comment lines under the move. The node, its
/// comments and where they end.
pub open spec fn spec_ki2_node(s: Seq<char>, i: int) -> Option<(MoveFormat, Seq<Seq<char>>, int)> {
    match spec_ki2_move(s, i) {
        None => None,
        Some((m, e)) => {
            let d = space_end(s, e);
            let f = match line_ending_at(s, d) {
                Some(f) => f,
                None => d,
            };
            let (c, g) = comment_run(s, f);
            Some((MoveFormat { move_: Some(m), comments: None, time: None, special: None, forks: None }, c, g))
        },
    }
}

/// The KI2 moves one after another from `i`, each with its comments, and
/// where they end.
pub open spec fn ki2_nodes(s: Seq<char>, i: int) -> (Seq<(MoveFormat, Seq<Seq<char>>)>, int)
    decreases s.len() - i,
{
    match spec_ki2_node(s, i) {
        None => (Seq::empty(), i),
        Some((m, c, g)) => if i < g <= s.len() {
            (seq![(m, c)] + ki2_nodes(s, g).0, ki2_nodes(s, g).1)
        } else {
            (seq![(m, c)], g)
        },
    }
}

proof fn lemma_pushed(before: Seq<MoveFormat>, node: MoveFormat, fin: Seq<MoveFormat>, n0: (MoveFormat, Seq<Seq<char>>), ns: Seq<(MoveFormat, Seq<Seq<char>>)>)
    requires
        node_is(node, n0),
        fin.len() >= before.len() + 1,
        fin.take(before.len() as int + 1) == before.push(node),
        nodes_are(fin.skip(before.len() as int + 1), ns),
    ensures
        fin.take(before.len() as int) == before,
        nodes_are(fin.skip(before.len() as int), seq![n0] + ns),
{
    let b = before.len() as int;
    assert forall|k: int| 0 <= k < b implies fin.take(b)[k] == before[k] by {
        assert(fin.take(b + 1)[k] == before.push(node)[k]);
    }
    assert(fin.take(b) =~= before);
    assert(fin[b] == fin.take(b + 1)[b]);
    let all = seq![n0] + ns;
    assert forall|k: int| 0 <= k < all.len() implies node_is(#[trigger] fin.skip(b)[k], all[k]) by {
        if k > 0 {
            assert(fin.skip(b)[k] == fin.skip(b + 1)[k - 1]);
        } else {
            assert(fin.skip(b)[0] == node);
        }
    }
}

/// Reads the KI2 moves from `i` (see [`ki2_nodes`]) onto the end of `out`.
fn ki2_nodes_into(s: &Vec<char>, i: usize, out: &mut Vec<MoveFormat>) -> (e: usize)
    requires
        i <= s@.len(),
    ensures
        e == ki2_nodes(s@, i as int).1,
        e <= s@.len(),
        final(out)@.len() >= old(out)@.len(),
        final(out)@.take(old(out)@.len() as int) == old(out)@,
        nodes_are(final(out)@.skip(old(out)@.len() as int), ki2_nodes(s@, i as int).0),
    decreases s@.len() - i,
{
    let (m, e) = match ki2_move_at(s, i) {
        None => {
            assert(out@.take(out@.len() as int) =~= out@);
            assert(out@.skip(out@.len() as int) =~= Seq::<MoveFormat>::empty());
            return i;
        },
        Some(x) => x,
    };
    let d = space_end_exec(s, e);
    let f = match line_ending_exec(s, d) {
        Some(f) => f,
        None => d,
    };
    let (c, g) = comments_at(s, f);
    let node = MoveFormat { move_: Some(m), comments: c, time: None, special: None, forks: None };
    let ghost before = out@;
    let ghost n0 = (MoveFormat { move_: Some(m), comments: None, time: None, special: None, forks: None }, comment_run(s@, f as int).0);
    out.push(node);
    if i < g {
        let h = ki2_nodes_into(s, g, out);
        proof { lemma_pushed(before, node, out@, n0, ki2_nodes(s@, g as int).0); }
        h
    } else {
        assert(out@.take(before.len() as int) =~= before);
        assert(out@.skip(before.len() as int) =~= seq![node]);
        g
    }
}

/// The end of the line endings in a row from `i`.
pub open spec fn line_endings_end(s: Seq<char>, i: int) -> int
    decreases s.len() - i,
{
    match line_ending_at(s, i) {
        Some(e) => if i < e <= s.len() { line_endings_end(s, e) } else { i },
        None => i,
    }
}

fn line_endings_end_exec(s: &Vec<char>, i: usize) -> (e: usize)
    requires
        i <= s@.len(),
    ensures
        e == line_endings_end(s@, i as int),
        i <= e <= s@.len(),
    decreases s@.len() - i,
{
    match line_ending_exec(s, i) {
        Some(e) => if i < e && e <= s.len() { line_endings_end_exec(s, e) } else { i },
        None => i,
    }
}

/// The first `手で` from `k` that starts before `stop`.
pub open spec fn te_de_from(s: Seq<char>, k: int, stop: int) -> Option<int>
    decreases stop - k,
{
    if k >= stop {
        None
    } else if lit_at(s, k, "手で"@) {
        Some(k)
    } else {
        te_de_from(s, k + 1, stop)
    }
}

fn te_de_from_exec(s: &Vec<char>, k: usize, stop: usize) -> (r: Option<usize>)
    requires
        stop <= s@.len(),
    ensures
        match te_de_from(s@, k as int, stop as int) {
            Some(j) => r matches Some(i) && i == j && j + 2 <= s@.len(),
            None => r is None,
        },
    decreases stop - k,
{
    if k >= stop {
        None
    } else if lit_at_exec(s, k, "手で") {
        proof { reveal_strlit("手で"); }
        Some(k)
    } else {
        te_de_from_exec(s, k + 1, stop)
    }
}

/// Where the word at `k` ends: at padding, a line end, a note marker, or the
/// end of the text.
pub open spec fn word_end(s: Seq<char>, k: int) -> int
    decreases s.len() - k,
{
    if 0 <= k < s.len() && !spec_ends_a_word(s[k]) {
        word_end(s, k + 1)
    } else {
        k
    }
}

fn word_end_exec(s: &Vec<char>, k: usize) -> (e: usize)
    requires
        k <= s@.len(),
    ensures
        e == word_end(s@, k as int),
        k <= e <= s@.len(),
{
    let mut e = k;
    while e < s.len() && !ends_a_word(s[e])
        invariant
            k <= e <= s@.len(),
            word_end(s@, k as int) == word_end(s@, e as int),
        decreases s@.len() - e,
    {
        e = e + 1;
    }
    e
}

/// The `まで<N>手で<結末>` line that states a KI2 game's outcome, past line
/// endings at `i`, where the outcome takes ply `ply`: the outcome is the
/// word after `手で` (or after `まで` when `手で` is not on the line), up to
/// padding, a line end or a note marker, and whose turn the ply is decides
/// which side a foul win names. A `まで` line whose word is none KI2 has is
/// an error.
pub open spec fn end_of_game_line(start: Color, ply: int, s: Seq<char>, i: int) -> Result<(MoveFormat, int), Option<(int, LineFault)>> {
    let line = line_endings_end(s, i);
    if !lit_at(s, line, "まで"@) {
        Err(None)
    } else {
        let q = line + 2;
        let p = match te_de_from(s, q, line_stop(s, q)) {
            Some(k) => k + 2,
            None => q,
        };
        let ph = padding_end(s, p);
        let end = word_end(s, ph);
        match crate::jkf::spec_from_ki2_phrase(s.subrange(ph, end), spec_side_to_move_at_ply(start, ply)) {
            Some(sp) => match ends_here(LineShapes::Ki2, s, line, end) {
                Ok(e) => Ok((MoveFormat { move_: None, comments: None, time: None, special: Some(sp), forks: None }, e)),
                Err(x) => Err(x),
            },
            None => Err(Some((line, LineFault::UnknownOutcome))),
        }
    }
}

fn text_between(s: &Vec<char>, from: usize, to: usize) -> (t: String)
    requires
        from <= to <= s@.len(),
    ensures
        t@ == s@.subrange(from as int, to as int),
{
    let mut t = String::new();
    let mut k = from;
    while k < to
        invariant
            from <= k <= to <= s@.len(),
            t@ == s@.subrange(from as int, k as int),
        decreases to - k,
    {
        crate::text::push_char(&mut t, s[k]);
        k = k + 1;
        assert(t@ =~= s@.subrange(from as int, k as int));
    }
    t
}

fn end_of_game_line_at(start: Color, ply: usize, s: &Vec<char>, i: usize) -> (r: Result<(MoveFormat, usize), Refusal>)
    requires
        i <= s@.len(),
    ensures
        match end_of_game_line(start, ply as int, s@, i as int) {
            Ok((m, e)) => r matches Ok((n, f)) && n == m && f == e && e <= s@.len(),
            Err(x) => r matches Err(y) && refusal_is(y, x),
        },
{
    let line = line_endings_end_exec(s, i);
    if !lit_at_exec(s, line, "まで") {
        return Err(Refusal::NotThis);
    }
    proof { reveal_strlit("まで"); }
    let q = line + 2;
    let stop = line_stop_exec(s, q);
    let p = match te_de_from_exec(s, q, stop) {
        Some(k) => k + 2,
        None => q,
    };
    let ph = skip_padding(s, p);
    let end = word_end_exec(s, ph);
    let phrase = text_between(s, ph, end);
    match MoveSpecial::from_ki2_phrase(phrase.as_str(), side_to_move_at_ply(start, ply)) {
        Some(sp) => match ends_here_exec(LineShapes::Ki2, s, line, end) {
            Ok(e) => Ok((MoveFormat { move_: None, comments: None, time: None, special: Some(sp), forks: None }, e)),
            Err(y) => Err(y),
        },
        None => Err(Refusal::Broken(line, LineFault::UnknownOutcome)),
    }
}

/// Whether no side mark stands in `l`.
pub open spec fn no_side_mark(l: Seq<char>) -> bool {
    forall|k: int| 0 <= k < l.len() ==> #[trigger] l[k] != '▲' && l[k] != '△'
}

/// A line only prose opens at `i`: none of the shapes both formats share,
/// none the move list has, and no side mark anywhere on it, since KI2 puts
/// moves anywhere along a line. Where the line after it starts.
pub open spec fn prose_line(s: Seq<char>, i: int) -> Option<int> {
    if spec_opens_a_shared_line(s, i) {
        None
    } else {
        match spec_not_move_line(false, s, i) {
            Some((l, n)) => if no_side_mark(l) { Some(n) } else { None },
            None => None,
        }
    }
}

fn prose_line_at(s: &Vec<char>, i: usize) -> (r: Option<usize>)
    requires
        i <= s@.len(),
    ensures
        match prose_line(s@, i as int) {
            Some(n) => r matches Some(m) && m == n && i <= n <= s@.len(),
            None => r is None,
        },
{
    if opens_a_shared_line_at(s, i) {
        return None;
    }
    let n = match not_move_line_at(false, s, i) {
        None => return None,
        Some(n) => n,
    };
    let k = match crate::parser::header_block::not_line_ending_exec(s, i) {
        Some(k) => k,
        None => return None,
    };
    let mut j = i;
    while j < k
        invariant
            i <= j <= k,
            k <= s@.len(),
            spec_not_move_line(false, s@, i as int) is Some,
            not_line_ending(s@, i as int) == Some(k as int),
            forall|m: int| i <= m < j ==> #[trigger] s@[m] != '▲' && s@[m] != '△',
        decreases k - j,
    {
        if s[j] == '▲' || s[j] == '△' {
            proof {
                let l = s@.subrange(i as int, k as int);
                assert(l[j - i] == s@[j as int]);
                assert(!no_side_mark(l));
                assert(spec_not_move_line(false, s@, i as int) is Some);
                assert(not_line_ending(s@, i as int) == Some(k as int));
                assert(spec_not_move_line(false, s@, i as int)->Some_0.0 == l);
            }
            return None;
        }
        j = j + 1;
    }
    proof {
        let l = s@.subrange(i as int, k as int);
        assert forall|m: int| 0 <= m < l.len() implies #[trigger] l[m] != '▲' && l[m] != '△' by {
            assert(l[m] == s@[i + m]);
        }
        assert(spec_not_move_line(false, s@, i as int) is Some);
        assert(spec_not_move_line(false, s@, i as int)->Some_0.0 == l);
    }
    Some(n)
}

/// Past what may stand between the moves of a KI2 run from `i`: line
/// endings, spaces (half and full width), `#` lines, and lines only prose
/// opens.
pub open spec fn run_skip(s: Seq<char>, i: int) -> int
    decreases s.len() - i,
{
    let next = if line_ending_at(s, i) is Some {
        line_ending_at(s, i)
    } else if char_at(s, i, ' ') || char_at(s, i, '　') {
        Some(i + 1)
    } else {
        match spec_comment_line(s, i) {
            Some((_, n)) => Some(n),
            None => prose_line(s, i),
        }
    };
    match next {
        Some(e) => if i < e <= s.len() { run_skip(s, e) } else { i },
        None => i,
    }
}

fn run_skip_at(s: &Vec<char>, i: usize) -> (e: usize)
    requires
        i <= s@.len(),
    ensures
        e == run_skip(s@, i as int),
        e <= s@.len(),
    decreases s@.len() - i,
{
    let next = match line_ending_exec(s, i) {
        Some(e) => Some(e),
        None => if char_at_exec(s, i, ' ') || char_at_exec(s, i, '　') {
            Some(i + 1)
        } else {
            match comment_line_exec(s, i) {
                Some((_, n)) => Some(n),
                None => prose_line_at(s, i),
            }
        },
    };
    match next {
        Some(e) => if i < e && e <= s.len() { run_skip_at(s, e) } else { i },
        None => i,
    }
}

/// A KI2 run from `i`, whose first ply is `first_ply`, `count` plies into it:
/// again and again, past what may stand between moves, comment lines that
/// open a node of their own, the moves, and a `まで` line, whose ply counts
/// the moves and outcomes before it (not the comment-only nodes). The run
/// ends where a round reads none of the three.
pub open spec fn ki2_run(start: Color, first_ply: int, count: int, s: Seq<char>, i: int)
    -> Result<(Seq<(MoveFormat, Seq<Seq<char>>)>, int), (int, LineFault)>
    decreases s.len() - i,
{
    let a = run_skip(s, i);
    let (lc, b) = comment_run(s, a);
    let lead = if lc.len() > 0 { seq![(bare_node(), lc)] } else { Seq::empty() };
    let (ms, c) = ki2_nodes(s, b);
    let count2 = count + ms.len();
    if first_ply + count2 + 1 > usize::MAX {
        Err((c, LineFault::MoveCannotBeRead))
    } else {
    match end_of_game_line(start, first_ply + count2, s, c) {
        Err(Some(x)) => Err(x),
        r => {
            let (ends, d) = match r {
                Ok((m, e)) => (seq![(m, Seq::<Seq<char>>::empty())], e),
                Err(_) => (Seq::empty(), c),
            };
            let here = lead + ms + ends;
            if here.len() == 0 {
                Ok((Seq::empty(), d))
            } else if i < d <= s.len() {
                match ki2_run(start, first_ply, count2 + ends.len(), s, d) {
                    Ok((ns, g)) => Ok((here + ns, g)),
                    Err(x) => Err(x),
                }
            } else {
                Ok((here, d))
            }
        },
    }
    }
}

proof fn lemma_joined_tail(before: Seq<MoveFormat>, fin: Seq<MoveFormat>, pre: Seq<(MoveFormat, Seq<Seq<char>>)>, ns: Seq<(MoveFormat, Seq<Seq<char>>)>, old: Seq<MoveFormat>)
    requires
        before.len() >= old.len(),
        before.take(old.len() as int) == old,
        nodes_are(before.skip(old.len() as int), pre),
        fin.len() >= before.len(),
        fin.take(before.len() as int) == before,
        nodes_are(fin.skip(before.len() as int), ns),
    ensures
        fin.len() >= old.len(),
        fin.take(old.len() as int) == old,
        nodes_are(fin.skip(old.len() as int), pre + ns),
{
    let o = old.len() as int;
    let b = before.len() as int;
    assert forall|k: int| 0 <= k < o implies fin.take(o)[k] == old[k] by {
        assert(fin[k] == fin.take(b)[k]);
        assert(before[k] == before.take(o)[k]);
    }
    assert(fin.take(o) =~= old);
    let all = pre + ns;
    assert forall|k: int| 0 <= k < all.len() implies node_is(#[trigger] fin.skip(o)[k], all[k]) by {
        if k < b - o {
            assert(fin.skip(o)[k] == fin.take(b)[o + k]);
            assert(before.skip(o)[k] == before[o + k]);
        } else {
            assert(fin.skip(o)[k] == fin.skip(b)[k - (b - o)]);
        }
    }
}

/// Reads a KI2 run from `i` (see [`ki2_run`]) onto the end of `out`.
#[verifier::rlimit(80)]
#[verifier::spinoff_prover]
fn ki2_run_into(start: Color, first_ply: usize, count: usize, s: &Vec<char>, i: usize, out: &mut Vec<MoveFormat>) -> (r: Result<usize, Refusal>)
    requires
        i <= s@.len(),
        first_ply + count <= usize::MAX,
    ensures
        match ki2_run(start, first_ply as int, count as int, s@, i as int) {
            Ok((ns, g)) => r matches Ok(h) && h == g && g <= s@.len()
                && final(out)@.len() >= old(out)@.len()
                && final(out)@.take(old(out)@.len() as int) == old(out)@
                && nodes_are(final(out)@.skip(old(out)@.len() as int), ns),
            Err(x) => r matches Err(y) && refusal_is(y, Some(x)),
        },
    decreases s@.len() - i,
{
    let a = run_skip_at(s, i);
    let (lc, b) = comments_at(s, a);
    let ghost lcs = comment_run(s@, a as int).0;
    let ghost start_out = out@;
    let start_len = out.len();
    let has_lead = lc.is_some();
    if has_lead {
        out.push(MoveFormat { move_: None, comments: lc, time: None, special: None, forks: None });
    }
    let ghost lead = if lcs.len() > 0 { seq![(bare_node(), lcs)] } else { Seq::<(MoveFormat, Seq<Seq<char>>)>::empty() };
    proof {
        assert(out@.take(start_out.len() as int) =~= start_out);
        if has_lead {
            assert(out@.skip(start_out.len() as int) =~= seq![out@[start_out.len() as int]]);
        } else {
            assert(out@.skip(start_out.len() as int) =~= Seq::<MoveFormat>::empty());
        }
    }
    let ghost after_lead = out@;
    let len1 = out.len();
    let c = ki2_nodes_into(s, b, out);
    let ghost ms = ki2_nodes(s@, b as int).0;
    proof { lemma_joined_tail(after_lead, out@, lead, ms, start_out); }
    let n_moves = out.len() - len1;
    assert(n_moves == ms.len()) by {
        assert(out@.skip(len1 as int).len() == ms.len());
    }
    if count > usize::MAX - n_moves {
        return Err(Refusal::Broken(c, LineFault::MoveCannotBeRead));
    }
    let count2 = count + n_moves;
    if count2 == usize::MAX || first_ply > usize::MAX - 1 - count2 {
        return Err(Refusal::Broken(c, LineFault::MoveCannotBeRead));
    }
    let ghost after_moves = out@;
    let (n_ends, d) = match end_of_game_line_at(start, first_ply + count2, s, c) {
        Ok((m, e)) => {
            out.push(m);
            (1usize, e)
        },
        Err(Refusal::NotThis) => (0usize, c),
        Err(y) => return Err(y),
    };
    let ghost ends = if n_ends == 1 {
        seq![((end_of_game_line(start, (first_ply + count2) as int, s@, c as int)->Ok_0).0, Seq::<Seq<char>>::empty())]
    } else {
        Seq::<(MoveFormat, Seq<Seq<char>>)>::empty()
    };
    proof {
        assert(out@.take(after_moves.len() as int) =~= after_moves);
        if n_ends == 1 {
            assert(out@.skip(after_moves.len() as int) =~= seq![out@[after_moves.len() as int]]);
        } else {
            assert(out@.skip(after_moves.len() as int) =~= Seq::<MoveFormat>::empty());
        }
        lemma_joined_tail(after_moves, out@, lead + ms, ends, start_out);
    }
    let here = out.len() - start_len;
    if here == 0 {
        assert((lead + ms + ends).len() == 0);
        Ok(d)
    } else if i < d && d <= s.len() {
        let ghost before_rest = out@;
        let r = ki2_run_into(start, first_ply, count2 + n_ends, s, d, out);
        proof {
            if r is Ok {
                let ns = (ki2_run(start, first_ply as int, (count2 + n_ends) as int, s@, d as int)->Ok_0).0;
                lemma_joined_tail(before_rest, out@, lead + ms + ends, ns, start_out);
            }
        }
        r
    } else {
        Ok(d)
    }
}

/// A `変化：<N>手` header past line endings at `i`: the ply it names, where
/// its line starts and where the line after it starts. One that runs into
/// the line below is an error.
pub open spec fn ki2_branch_header(s: Seq<char>, i: int) -> Result<(int, int, int), Option<(int, LineFault)>> {
    let line = line_endings_end(s, i);
    match branch_header_at_line(s, line) {
        None => Err(None),
        Some((e, n)) => match ends_here(LineShapes::Ki2, s, line, e) {
            Ok(f) => Ok((n, line, f)),
            Err(x) => Err(x),
        },
    }
}

fn ki2_branch_header_at(s: &Vec<char>, i: usize) -> (r: Result<(usize, usize, usize), Refusal>)
    requires
        i <= s@.len(),
    ensures
        match ki2_branch_header(s@, i as int) {
            Ok((n, l, f)) => r matches Ok((m, k, g)) && m == n && k == l && g == f && f <= s@.len(),
            Err(x) => r matches Err(y) && refusal_is(y, x),
        },
{
    let line = line_endings_end_exec(s, i);
    match branch_header_at_line_exec(s, line) {
        None => Err(Refusal::NotThis),
        Some((e, n)) => match ends_here_exec(LineShapes::Ki2, s, line, e) {
            Ok(f) => Ok((n, line, f)),
            Err(y) => Err(y),
        },
    }
}

/// Headers in a row from `r`, taken as one: the last says which ply the
/// branch leaves. The ply, the line of the last header, and where they end.
pub open spec fn header_chain(s: Seq<char>, r: int, ply: int, line: int) -> Result<(int, int, int), (int, LineFault)>
    decreases s.len() - r,
{
    match ki2_branch_header(s, r) {
        Ok((p2, l2, r2)) => if r < r2 <= s.len() { header_chain(s, r2, p2, l2) } else { Ok((p2, l2, r2)) },
        Err(Some(x)) => Err(x),
        Err(None) => Ok((ply, line, r)),
    }
}

fn header_chain_at(s: &Vec<char>, r: usize, ply: usize, line: usize) -> (res: Result<(usize, usize, usize), Refusal>)
    requires
        r <= s@.len(),
    ensures
        match header_chain(s@, r as int, ply as int, line as int) {
            Ok((p, l, e)) => res matches Ok((q, k, f)) && q == p && k == l && f == e && e <= s@.len(),
            Err(x) => res matches Err(y) && refusal_is(y, Some(x)),
        },
    decreases s@.len() - r,
{
    match ki2_branch_header_at(s, r) {
        Ok((p2, l2, r2)) => if r < r2 { header_chain_at(s, r2, p2, l2) } else { Ok((p2, l2, r2)) },
        Err(Refusal::NotThis) => Ok((ply, line, r)),
        Err(y) => Err(y),
    }
}

/// The `変化：N手` blocks from `i`, in the order the file lists them, each
/// run with the ply it leaves from; `#` lines and lines only prose opens
/// between them are passed over. A header with nothing under it is an
/// error.
pub open spec fn ki2_branches(start: Color, s: Seq<char>, i: int)
    -> Result<(Seq<(int, Seq<(MoveFormat, Seq<Seq<char>>)>)>, int), (int, LineFault)>
    decreases s.len() - i,
{
    match ki2_branch_header(s, i) {
        Ok((ply, line, r)) => match header_chain(s, r, ply, line) {
            Err(x) => Err(x),
            Ok((p2, l2, r2)) => match ki2_run(start, p2, 0, s, r2) {
                Err(x) => Err(x),
                Ok((ns, e)) => if ns.len() == 0 {
                    Err((l2, LineFault::EmptyBranch))
                } else if i < e <= s.len() {
                    match ki2_branches(start, s, e) {
                        Ok((bs, g)) => Ok((seq![(p2, ns)] + bs, g)),
                        Err(x) => Err(x),
                    }
                } else {
                    Ok((seq![(p2, ns)], e))
                },
            },
        },
        Err(Some(x)) => Err(x),
        Err(None) => {
            let n = match spec_comment_line(s, i) {
                Some((_, n)) => Some(n),
                None => prose_line(s, i),
            };
            match n {
                Some(n) => if i < n <= s.len() { ki2_branches(start, s, n) } else { Ok((Seq::empty(), i)) },
                None => Ok((Seq::empty(), i)),
            }
        },
    }
}

#[verifier::rlimit(80)]
#[verifier::spinoff_prover]
fn ki2_branches_into(start: Color, s: &Vec<char>, i: usize, out: &mut Vec<(usize, Vec<MoveFormat>)>) -> (r: Result<usize, Refusal>)
    requires
        i <= s@.len(),
    ensures
        match ki2_branches(start, s@, i as int) {
            Ok((bs, e)) => r matches Ok(f) && f == e && e <= s@.len()
                && final(out)@.len() >= old(out)@.len()
                && final(out)@.take(old(out)@.len() as int) == old(out)@
                && runs_are(final(out)@.skip(old(out)@.len() as int), bs),
            Err(x) => r matches Err(y) && refusal_is(y, Some(x)),
        },
    decreases s@.len() - i,
{
    match ki2_branch_header_at(s, i) {
        Ok((ply, line, r)) => {
            let (p2, l2, r2) = match header_chain_at(s, r, ply, line) {
                Err(y) => return Err(y),
                Ok(x) => x,
            };
            let mut v: Vec<MoveFormat> = Vec::new();
            let e = match ki2_run_into(start, p2, 0, s, r2, &mut v) {
                Err(y) => return Err(y),
                Ok(e) => e,
            };
            let ghost ns = (ki2_run(start, p2 as int, 0, s@, r2 as int)->Ok_0).0;
            assert(v@.skip(0) =~= v@);
            if v.len() == 0 {
                return Err(Refusal::Broken(l2, LineFault::EmptyBranch));
            }
            let ghost before = out@;
            out.push((p2, v));
            if i < e {
                let res = ki2_branches_into(start, s, e, out);
                proof {
                    if res is Ok {
                        let bs = (ki2_branches(start, s@, e as int)->Ok_0).0;
                        lemma_run_appended(before, (p2, v), out@, (p2 as int, ns), bs);
                    }
                }
                res
            } else {
                assert(out@.take(before.len() as int) =~= before);
                assert(out@.skip(before.len() as int) =~= seq![(p2, v)]);
                Ok(e)
            }
        },
        Err(Refusal::NotThis) => {
            let n = match comment_line_exec(s, i) {
                Some((_, n)) => Some(n),
                None => prose_line_at(s, i),
            };
            match n {
                Some(n) => if i < n && n <= s.len() {
                    ki2_branches_into(start, s, n, out)
                } else {
                    assert(out@.take(out@.len() as int) =~= out@);
                    assert(out@.skip(out@.len() as int) =~= Seq::<(usize, Vec<MoveFormat>)>::empty());
                    Ok(i)
                },
                None => {
                    assert(out@.take(out@.len() as int) =~= out@);
                    assert(out@.skip(out@.len() as int) =~= Seq::<(usize, Vec<MoveFormat>)>::empty());
                    Ok(i)
                },
            }
        },
        Err(y) => Err(y),
    }
}

/// The branches a node has.
pub open spec fn forks_of(t: NodeT) -> Seq<Seq<NodeT>> {
    match t.forks {
        Some(v) => v,
        None => Seq::empty(),
    }
}

/// `branch` hung on the level `level`, whose first node is ply
/// `level_first`, by way of the branches `path[p..]` names (each the ply a
/// branch leaves from and its place among that node's branches): as a new
/// branch of the node at `start_ply`, after the ones it has. Where the way or
/// that node is not there, nothing is hung. With the level, the new branch's
/// place among its node's branches.
pub open spec fn at_path(level: Seq<NodeT>, level_first: int, path: Seq<(usize, usize)>, p: int, start_ply: int, branch: Seq<NodeT>) -> (Seq<NodeT>, Option<usize>)
    decreases path.len() - p,
{
    let last = p >= path.len();
    let ply: int = if last { start_ply } else { path[p].0 as int };
    if p < 0 || ply < level_first || ply - level_first >= level.len() {
        (level, None)
    } else {
        let idx = ply - level_first;
        let t = level[idx];
        if last {
            (level.update(idx, with_fork(t, branch)), Some(forks_of(t).len() as usize))
        } else {
            match t.forks {
                Some(v) => {
                    let index = path[p].1 as int;
                    if index < v.len() {
                        let (sub, r) = at_path(v[index], ply, path, p + 1, start_ply, branch);
                        (level.update(idx, NodeT { node: t.node, comments: t.comments, forks: Some(v.update(index, sub)) }), r)
                    } else {
                        (level, None)
                    }
                },
                None => (level, None),
            }
        }
    }
}

/// The way `path` cut back to the branches that leave from a ply before
/// `ply`.
pub open spec fn kept_path(path: Seq<(usize, usize)>, ply: int) -> Seq<(usize, usize)>
    decreases path.len(),
{
    if path.len() == 0 {
        path
    } else {
        let sub = kept_path(path.drop_last(), ply);
        if (path.last().0 as int) < ply { sub.push(path.last()) } else { sub }
    }
}

/// The branches `bs` hung, in the file's order, on `level` (the main line
/// past the starting position's node, its first node ply 1), `path` being
/// the way through the branches most recently entered: each along that way
/// cut back to the branches that leave before its ply (see [`at_path`]),
/// and, once hung, the last step of the way.
pub open spec fn all_attached(level: Seq<NodeT>, path: Seq<(usize, usize)>, bs: Seq<(int, Seq<NodeT>)>) -> Seq<NodeT>
    decreases bs.len(),
{
    if bs.len() == 0 {
        level
    } else {
        let kept = kept_path(path, bs[0].0);
        let (l2, got) = at_path(level, 1, kept, 0, bs[0].0, bs[0].1);
        let next = match got {
            Some(k) => kept.push((bs[0].0 as usize, k)),
            None => kept,
        };
        all_attached(l2, next, bs.drop_first())
    }
}

/// The move tree a KI2 move list describes: the starting position's node,
/// then the main line with its branches hung on it (see [`all_attached`]).
pub open spec fn ki2_tree(main: Seq<(MoveFormat, Seq<Seq<char>>)>, bs: Seq<(int, Seq<(MoveFormat, Seq<Seq<char>>)>)>) -> Seq<NodeT> {
    seq![leaf(main[0])] + all_attached(leaves(main.drop_first()), Seq::empty(), run_trees(bs))
}

/// A node whose branch `index` is replaced by the lines `sub`.
proof fn lemma_fork_replaced(m: MoveFormat, t: NodeT, n: MoveFormat, index: int, sub: Vec<MoveFormat>, st: Seq<NodeT>)
    requires
        tree_is(m, t),
        t.forks is Some,
        m.forks is Some,
        n.forks is Some,
        0 <= index < m.forks->Some_0@.len(),
        n.forks->Some_0@ == m.forks->Some_0@.update(index, sub),
        lines_are(sub@, st),
        n.move_ == m.move_,
        n.time == m.time,
        n.special == m.special,
        n.comments == m.comments,
    ensures
        tree_is(n, NodeT { node: t.node, comments: t.comments, forks: Some(t.forks->Some_0.update(index, st)) }),
{
    let nt = NodeT { node: t.node, comments: t.comments, forks: Some(t.forks->Some_0.update(index, st)) };
    lemma_tree_unfold(m, t);
    lemma_tree_unfold(n, nt);
    let w = m.forks->Some_0;
    let w2 = n.forks->Some_0;
    let vt = t.forks->Some_0;
    assert forall|i: int| 0 <= i < vt.len() implies lines_are(#[trigger] w2@[i]@, vt.update(index, st)[i]) by {
        if i != index {
            assert(w2@[i] == w@[i]);
        }
    }
}

/// Hangs `branch` on the level `level`, whose first node is ply
/// `level_first`, by way of the branches `path[p..]` names (see
/// [`at_path`]); the new branch's place among its node's branches.
fn attach_at_path(level: &mut Vec<MoveFormat>, level_first: usize, path: &Vec<(usize, usize)>, p: usize, start_ply: usize, branch: Vec<MoveFormat>, Ghost(lt): Ghost<Seq<NodeT>>, Ghost(bt): Ghost<Seq<NodeT>>) -> (r: Option<usize>)
    requires
        p <= path@.len(),
        lines_are(old(level)@, lt),
        lines_are(branch@, bt),
    ensures
        lines_are(final(level)@, at_path(lt, level_first as int, path@, p as int, start_ply as int, bt).0),
        r == at_path(lt, level_first as int, path@, p as int, start_ply as int, bt).1,
    decreases path@.len() - p,
{
    let (ply, index, last) = if p == path.len() { (start_ply, 0usize, true) } else { (path[p].0, path[p].1, false) };
    if ply < level_first || ply - level_first >= level.len() {
        return None;
    }
    let idx = ply - level_first;
    let ghost o = level@;
    let ghost t = lt[idx as int];
    proof {
        assert(tree_is(o[idx as int], t));
        lemma_tree_unfold(o[idx as int], t);
    }
    let node = level.remove(idx);
    let ghost m = node;
    let MoveFormat { move_, comments, time, special, forks } = node;
    if last {
        let mut v = match forks {
            Some(v) => v,
            None => Vec::new(),
        };
        v.push(branch);
        let k = v.len() - 1;
        let n = MoveFormat { move_, comments, time, special, forks: Some(v) };
        level.insert(idx, n);
        proof {
            lemma_pushed_fork(m, t, match m.forks { Some(w) => w@, None => Seq::<Vec<MoveFormat>>::empty() }, branch, bt, n);
            lemma_lines_update(o, lt, idx as int, n, with_fork(t, bt));
            assert(level@ =~= o.update(idx as int, n));
        }
        Some(k)
    } else {
        match forks {
            Some(v) => {
                let mut v = v;
                if index < v.len() {
                    let ghost w = v@;
                    let ghost vt = t.forks->Some_0;
                    assert(lines_are(w[index as int]@, vt[index as int]));
                    let mut sub = v.remove(index);
                    let r = attach_at_path(&mut sub, ply, path, p + 1, start_ply, branch, Ghost(vt[index as int]), Ghost(bt));
                    v.insert(index, sub);
                    let n = MoveFormat { move_, comments, time, special, forks: Some(v) };
                    level.insert(idx, n);
                    proof {
                        assert(v@ =~= w.update(index as int, sub));
                        let st = at_path(vt[index as int], ply as int, path@, p as int + 1, start_ply as int, bt).0;
                        lemma_fork_replaced(m, t, n, index as int, sub, st);
                        lemma_lines_update(o, lt, idx as int, n, NodeT { node: t.node, comments: t.comments, forks: Some(vt.update(index as int, st)) });
                        assert(level@ =~= o.update(idx as int, n));
                    }
                    r
                } else {
                    let n = MoveFormat { move_, comments, time, special, forks: Some(v) };
                    level.insert(idx, n);
                    assert(level@ =~= o);
                    None
                }
            },
            None => {
                let n = MoveFormat { move_, comments, time, special, forks: None };
                level.insert(idx, n);
                assert(level@ =~= o);
                None
            },
        }
    }
}

/// Hangs the branches, in the order the file lists them, on the main line
/// past its first node (see [`all_attached`]).
fn attach_all(rest: &mut Vec<MoveFormat>, branches: Vec<(usize, Vec<MoveFormat>)>, Ghost(lt): Ghost<Seq<NodeT>>, Ghost(bt): Ghost<Seq<(int, Seq<NodeT>)>>)
    requires
        lines_are(old(rest)@, lt),
        runs_are_trees(branches@, bt),
    ensures
        lines_are(final(rest)@, all_attached(lt, Seq::empty(), bt)),
{
    let mut branches = branches;
    let mut path: Vec<(usize, usize)> = Vec::new();
    let ghost mut cur = lt;
    let ghost mut bs = bt;
    while branches.len() > 0
        invariant
            lines_are(rest@, cur),
            runs_are_trees(branches@, bs),
            all_attached(cur, path@, bs) == all_attached(lt, Seq::empty(), bt),
        decreases branches@.len(),
    {
        let ghost b0 = branches@;
        let (ply, br) = branches.remove(0);
        proof {
            assert(b0[0] == (ply, br));
            assert(branches@ =~= b0.drop_first());
        }
        let mut kept: Vec<(usize, usize)> = Vec::new();
        let mut k: usize = 0;
        while k < path.len()
            invariant
                k <= path@.len(),
                kept@ == kept_path(path@.take(k as int), ply as int),
            decreases path@.len() - k,
        {
            assert(path@.take(k as int + 1).drop_last() =~= path@.take(k as int));
            assert(path@.take(k as int + 1).last() == path@[k as int]);
            if path[k].0 < ply {
                kept.push(path[k]);
            }
            k = k + 1;
        }
        assert(path@.take(path@.len() as int) =~= path@);
        path = kept;
        let got = attach_at_path(rest, 1, &path, 0, ply, br, Ghost(cur), Ghost(bs[0].1));
        proof {
            cur = at_path(cur, 1, path@, 0, ply as int, bs[0].1).0;
            bs = bs.drop_first();
            assert forall|q: int| 0 <= q < bs.len() implies (#[trigger] branches@[q]).0 == bs[q].0 && lines_are(branches@[q].1@, bs[q].1) by {
                assert(branches@[q] == b0[q + 1]);
            }
        }
        match got {
            Some(k) => path.push((ply, k)),
            None => {},
        }
    }
}

/// The KI2 move list at `i`: past line endings, the comments on the
/// starting position, the main line's run (from ply 1) and the `変化：`
/// blocks. The main line, with the starting position's node first, the
/// branch runs, and where the list ends.
pub open spec fn spec_ki2_moves(start: Color, s: Seq<char>, i: int)
    -> Result<(Seq<(MoveFormat, Seq<Seq<char>>)>, Seq<(int, Seq<(MoveFormat, Seq<Seq<char>>)>)>, int), (int, LineFault)>
{
    let a = line_endings_end(s, i);
    let (mc, b) = comment_run(s, a);
    match ki2_run(start, 1, 0, s, b) {
        Err(x) => Err(x),
        Ok((ns, c)) => match ki2_branches(start, s, c) {
            Err(x) => Err(x),
            Ok((bs, e)) => Ok((seq![(bare_node(), mc)] + ns, bs, e)),
        },
    }
}

/// Reads the KI2 move list at `i` (see [`spec_ki2_moves`]): the main line,
/// each branch hung, in the file's order, on the node at the ply its header
/// names, along the branches most recently entered that leave from an
/// earlier ply (see [`ki2_tree`]); and where the list ends.
#[verifier::rlimit(60)]
#[verifier::spinoff_prover]
pub(crate) fn ki2_moves_at(start: Color, s: &Vec<char>, i: usize) -> (r: Result<(Vec<MoveFormat>, usize), Refusal>)
    requires
        i <= s@.len(),
    ensures
        match spec_ki2_moves(start, s@, i as int) {
            Ok((main, bs, e)) => r matches Ok((v, f)) && f == e && e <= s@.len()
                && lines_are(v@, ki2_tree(main, bs)),
            Err(x) => r matches Err(y) && refusal_is(y, Some(x)),
        },
{
    let a = line_endings_end_exec(s, i);
    let (mc, b) = comments_at(s, a);
    let mut rest: Vec<MoveFormat> = Vec::new();
    let c = match ki2_run_into(start, 1, 0, s, b, &mut rest) {
        Err(y) => return Err(y),
        Ok(c) => c,
    };
    assert(rest@.skip(0) =~= rest@);
    let mut branches: Vec<(usize, Vec<MoveFormat>)> = Vec::new();
    let e = match ki2_branches_into(start, s, c, &mut branches) {
        Err(y) => return Err(y),
        Ok(e) => e,
    };
    let ghost main_rest = rest@;
    let ghost ns = (ki2_run(start, 1, 0, s@, b as int)->Ok_0).0;
    let ghost bsp = (spec_ki2_moves(start, s@, i as int)->Ok_0).1;
    proof {
        lemma_leaves(main_rest, ns);
        assert(branches@.skip(0) =~= branches@);
        lemma_run_trees(branches@, bsp);
    }
    attach_all(&mut rest, branches, Ghost(leaves(ns)), Ghost(run_trees(bsp)));
    let ghost final_rest = rest@;
    let mut out: Vec<MoveFormat> = Vec::new();
    out.push(MoveFormat { move_: None, comments: mc, time: None, special: None, forks: None });
    let ghost first = out@;
    out.append(&mut rest);
    proof {
        let m = (spec_ki2_moves(start, s@, i as int)->Ok_0).0;
        assert(m =~= seq![(bare_node(), comment_run(s@, a as int).0)] + ns);
        assert(m.drop_first() =~= ns);
        assert(m[0] == (bare_node(), comment_run(s@, a as int).0));
        lemma_tree_unfold(first[0], leaf(m[0]));
        assert(lines_are(first, seq![leaf(m[0])]));
        lemma_lines_concat(first, seq![leaf(m[0])], final_rest, all_attached(leaves(ns), Seq::empty(), run_trees(bsp)));
    }
    Ok((out, e))
}

/// A KI2 text read: the block above the moves, and the move list under it
/// (see [`spec_ki2_moves`]).
pub open spec fn spec_ki2_read(s: Seq<char>)
    -> Result<(HeaderView, Seq<(MoveFormat, Seq<Seq<char>>)>, Seq<(int, Seq<(MoveFormat, Seq<Seq<char>>)>)>, int), (int, LineFault)>
{
    match spec_parse_without_moves(LineShapes::Ki2, s) {
        Err(x) => Err(x),
        Ok((v, d)) => match spec_ki2_moves(header_start(v), s, d) {
            Err(x) => Err(x),
            Ok((m, bs, e)) => Ok((v, m, bs, e)),
        },
    }
}

/// Reads a KI2 text (see [`spec_ki2_read`]): the record, with the comments
/// among the header lines put on the starting position, whether the block
/// above the moves held anything, and where the reader stopped.
pub(crate) fn ki2_read(s: &Vec<char>) -> (r: Result<(JsonKifuFormat, bool, usize), Refusal>)
    ensures
        match spec_ki2_read(s@) {
            Ok((v, main, bs, e)) => r matches Ok((j, h, f)) && f == e && e <= s@.len()
                && j.moves@.len() >= 1
                && h == (spec_parse_without_moves(LineShapes::Ki2, s@)->Ok_0.1 > 0)
                && 0 <= spec_parse_without_moves(LineShapes::Ki2, s@)->Ok_0.1
                && record_read(j, v, ki2_tree(main, bs)),
            Err(x) => r matches Err(y) && refusal_is(y, Some(x)),
        },
{
    let (d, hb) = match header_block_at(LineShapes::Ki2, s) {
        Ok(x) => x,
        Err(y) => return Err(y),
    };
    let ghost v = spec_parse_without_moves(LineShapes::Ki2, s@)->Ok_0.0;
    let start = starting_side(hb.jkf.initial.as_ref());
    assert(start == header_start(v));
    let (moves, e) = match ki2_moves_at(start, s, d) {
        Ok(x) => x,
        Err(y) => return Err(y),
    };
    let HeaderBlock { jkf, comments, a_board_could_follow: _ } = hb;
    let mut jkf = jkf;
    let ghost before = moves@;
    let ghost hc = comments@;
    jkf.moves = moves;
    comments_on_the_starting_position(comments, &mut jkf.moves);
    proof {
        let t = spec_ki2_read(s@)->Ok_0;
        lemma_header_comments(before, jkf.moves@, ki2_tree(t.1, t.2), hc, v.info.comments);
    }
    Ok((jkf, d > 0, e))
}

} // verus!
