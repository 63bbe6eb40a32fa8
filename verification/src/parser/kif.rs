//! The KIF move list: numbered move lines with the comments under them, runs
//! of such lines, and the `変化：` blocks whose runs become branches.
//!
//! Everything reads the characters of the whole text by position, as the
//! header block reader does; a reader answers with where it stopped.

use vstd::prelude::*;
use crate::handicap::{side_to_move_at_ply, spec_side_to_move_at_ply};
use crate::jkf::{Color, Initial, JsonKifuFormat, MoveFormat, MoveMoveFormat, MoveSpecial, PlaceFormat, Preset, Time};
use crate::handicap::{spec_starting_side, starting_side};
use crate::notation::{is_padding, spec_is_padding};
use crate::parser::header_block::{
    comment_text_line, comment_text_line_exec, comments_on_the_starting_position, ends_here,
    header_block_at, spec_parse_without_moves, HeaderBlock, HeaderView, ends_here_exec, not_move_line_at,
    refusal_is, spec_not_move_line, LineFault, Refusal,
};
use crate::parser::tree::{
    lemma_leaves, lemma_lines_concat, lemma_lines_update, lemma_pushed_fork, leaves, lines_are, occupies,
    runs_are_trees, tree_is, with_fork, NodeT, lemma_header_comments, record_read,
};
use crate::parser::kakinoki::{
    char_at, char_at_exec, lit_at, lit_at_exec, small_number_at, small_number_exec,
    line_ending_at, line_ending_exec, numbered_line_at, numbered_line_read, opens_a_branch_header_at,
    padding_end, skip_padding, space_end, space_end_exec, spec_opens_a_branch_header, BodyView, LineShapes, NumberedBody,
};

verus! {

/// The node a `<手数> <指し手>` line makes when it is `side`'s turn: an
/// outcome word names its outcome, and a move is played by `side`. `同`
/// leaves the destination `(0, 0)` and says `same`; past an origin, the
/// absence of `成` says the move did not promote, while a drop says nothing
/// of promotion.
pub open spec fn spec_numbered_node(side: Color, body: BodyView, time: Option<Time>) -> MoveFormat {
    match body {
        BodyView::Outcome(w) => MoveFormat {
            move_: None,
            comments: None,
            time,
            special: crate::jkf::spec_from_kif_word(w, side),
            forks: None,
        },
        BodyView::Move { to, piece, promote, from } => MoveFormat {
            move_: Some(MoveMoveFormat {
                color: side,
                from,
                to: match to {
                    Some(p) => p,
                    None => PlaceFormat { x: 0, y: 0 },
                },
                piece,
                same: if to is None { Some(true) } else { None },
                promote: if from is Some { Some(promote == Some(true)) } else { None },
                capture: None,
                relative: None,
            }),
            comments: None,
            time,
            special: None,
            forks: None,
        },
    }
}

fn numbered_node(side: Color, body: NumberedBody, time: Option<Time>) -> (m: MoveFormat)
    ensures
        m == spec_numbered_node(side, body@, time),
{
    match body {
        NumberedBody::Outcome(w) => MoveFormat {
            move_: None,
            comments: None,
            time,
            special: MoveSpecial::from_kif_word(w, side),
            forks: None,
        },
        NumberedBody::Move { to, piece, promote, from } => MoveFormat {
            move_: Some(MoveMoveFormat {
                color: side,
                from,
                to: match to {
                    Some(p) => p,
                    None => PlaceFormat { x: 0, y: 0 },
                },
                piece,
                same: if to.is_none() { Some(true) } else { None },
                promote: if from.is_some() { Some(promote == Some(true)) } else { None },
                capture: None,
                relative: None,
            }),
            comments: None,
            time,
            special: None,
            forks: None,
        },
    }
}

/// A `<手数> <指し手> [<消費時間>]` line at `i` and its end: the ply it
/// numbers, the node it makes and where the line after it starts. `known` is
/// whose turn it is when the run has been read far enough to say; without
/// it the ply number says, from `start`, whose turn ply 1 is. A line that
/// is a move line and broken, or that runs into the line below, is an
/// error; `None` is no move line at all.
pub open spec fn spec_kif_line(start: Color, known: Option<Color>, s: Seq<char>, i: int)
    -> Result<(int, MoveFormat, int), Option<(int, LineFault)>>
{
    match numbered_line_at(s, i) {
        Err(true) => Err(Some((i, LineFault::MoveCannotBeRead))),
        Err(false) => Err(None),
        Ok((ply, body, time, rest)) => {
            let side = match known {
                Some(c) => c,
                None => spec_side_to_move_at_ply(start, ply),
            };
            match ends_here(LineShapes::Kif, s, i, rest) {
                Ok(e) => Ok((ply, spec_numbered_node(side, body, time), e)),
                Err(x) => Err(x),
            }
        },
    }
}

/// Reads a move line at `i` (see [`spec_kif_line`]).
pub(crate) fn kif_line_at(start: Color, known: Option<Color>, s: &Vec<char>, i: usize)
    -> (r: Result<(usize, MoveFormat, usize), Refusal>)
    requires
        i <= s@.len(),
    ensures
        match spec_kif_line(start, known, s@, i as int) {
            Ok((p, m, e)) => r matches Ok((q, n, f)) && q == p && n == m && f == e && f <= s@.len(),
            Err(x) => r matches Err(y) && refusal_is(y, x),
        },
{
    match numbered_line_read(s, i) {
        Err(true) => Err(Refusal::Broken(i, LineFault::MoveCannotBeRead)),
        Err(false) => Err(Refusal::NotThis),
        Ok((ply, body, time, rest)) => {
            let side = match known {
                Some(c) => c,
                None => side_to_move_at_ply(start, ply),
            };
            match ends_here_exec(LineShapes::Kif, s, i, rest) {
                Ok(e) => Ok((ply, numbered_node(side, body, time), e)),
                Err(y) => Err(y),
            }
        },
    }
}

/// The comment (`*`) and bookmark (`&`) lines from `i`, one after another:
/// their texts, and where the line after the last starts.
pub open spec fn comment_run(s: Seq<char>, i: int) -> (Seq<Seq<char>>, int)
    decreases s.len() - i,
{
    match comment_text_line(s, i) {
        Some((t, n)) => if i < n <= s.len() {
            (seq![t] + comment_run(s, n).0, comment_run(s, n).1)
        } else {
            (seq![t], n)
        },
        None => (Seq::empty(), i),
    }
}

/// Whether `o` holds the comments `c`: none when there are none.
pub open spec fn comments_are(o: Option<Vec<String>>, c: Seq<Seq<char>>) -> bool {
    if c.len() == 0 {
        o is None
    } else {
        o matches Some(v) && v@.map_values(|t: String| t@) == c
    }
}

/// Reads the comment lines from `i` (see [`comment_run`]), onto the end of
/// `out`.
pub(crate) fn comment_run_at(s: &Vec<char>, i: usize, out: &mut Vec<String>) -> (e: usize)
    requires
        i <= s@.len(),
    ensures
        final(out)@.map_values(|t: String| t@) == old(out)@.map_values(|t: String| t@) + comment_run(s@, i as int).0,
        e == comment_run(s@, i as int).1,
        i <= e <= s@.len(),
    decreases s@.len() - i,
{
    match comment_text_line_exec(s, i) {
        None => {
            assert(final(out)@.map_values(|t: String| t@) =~= old(out)@.map_values(|t: String| t@) + comment_run(s@, i as int).0);
            i
        },
        Some((t, n)) => {
            out.push(t);
            let ghost mid = out@;
            assert(mid.map_values(|u: String| u@) =~= old(out)@.map_values(|u: String| u@) + seq![t@]);
            let e = comment_run_at(s, n, out);
            assert(final(out)@.map_values(|u: String| u@) =~= old(out)@.map_values(|u: String| u@) + comment_run(s@, i as int).0);
            e
        },
    }
}

/// Reads the comment lines from `i` as the comments of a node: `None` when
/// there are none.
pub(crate) fn comments_at(s: &Vec<char>, i: usize) -> (r: (Option<Vec<String>>, usize))
    requires
        i <= s@.len(),
    ensures
        comments_are(r.0, comment_run(s@, i as int).0),
        r.1 == comment_run(s@, i as int).1,
        i <= r.1 <= s@.len(),
{
    let mut v: Vec<String> = Vec::new();
    let e = comment_run_at(s, i, &mut v);
    assert(v@.map_values(|t: String| t@) =~= comment_run(s@, i as int).0);
    if v.len() == 0 {
        (None, e)
    } else {
        (Some(v), e)
    }
}

/// The first `\n` at or after `i`, or the end of the text.
pub open spec fn newline_from(s: Seq<char>, i: int) -> int
    decreases s.len() - i,
{
    if 0 <= i < s.len() && s[i] != '\n' {
        newline_from(s, i + 1)
    } else {
        i
    }
}

/// Past the blank lines and `#` lines that may stand between two moves of a
/// run, from `i`: a `#` at the very start of a line, or spaces and tabs and a
/// line ending. Any other line stays.
pub open spec fn skip_interruptions(s: Seq<char>, i: int) -> int
    decreases s.len() - i,
{
    let rest = if 0 <= i < s.len() && s[i] == '#' {
        Some(i + 1)
    } else if line_ending_at(s, space_end(s, i)) is Some {
        Some(space_end(s, i))
    } else {
        None
    };
    match rest {
        None => i,
        Some(r) => {
            let n = newline_from(s, r);
            if n >= s.len() {
                s.len() as int
            } else if i < n + 1 {
                skip_interruptions(s, n + 1)
            } else {
                n + 1
            }
        },
    }
}

fn newline_from_exec(s: &Vec<char>, i: usize) -> (n: usize)
    requires
        i <= s@.len(),
    ensures
        n == newline_from(s@, i as int),
        i <= n <= s@.len(),
{
    let mut n = i;
    while n < s.len() && s[n] != '\n'
        invariant
            i <= n <= s@.len(),
            newline_from(s@, i as int) == newline_from(s@, n as int),
        decreases s@.len() - n,
    {
        n = n + 1;
    }
    n
}

/// Skips blank and `#` lines from `i` (see [`skip_interruptions`]).
pub(crate) fn skip_interruptions_at(s: &Vec<char>, i: usize) -> (j: usize)
    requires
        i <= s@.len(),
    ensures
        j == skip_interruptions(s@, i as int),
        i <= j <= s@.len(),
    decreases s@.len() - i,
{
    let rest = if i < s.len() && s[i] == '#' {
        Some(i + 1)
    } else {
        let t = space_end_exec(s, i);
        if line_ending_exec(s, t).is_some() { Some(t) } else { None }
    };
    match rest {
        None => i,
        Some(r) => {
            let n = newline_from_exec(s, r);
            if n >= s.len() {
                s.len()
            } else if i < n + 1 {
                skip_interruptions_at(s, n + 1)
            } else {
                n + 1
            }
        },
    }
}

/// A line between runs of moves at `i`, other than a `変化：` header: a blank
/// line, or one the move list has no shape for. Where the line after it
/// starts.
pub open spec fn skippable_line(s: Seq<char>, i: int) -> Option<int> {
    if spec_opens_a_branch_header(s, i) {
        None
    } else {
        match line_ending_at(s, padding_end(s, i)) {
            Some(e) => Some(e),
            None => match spec_not_move_line(false, s, i) {
                Some((_, n)) => Some(n),
                None => None,
            },
        }
    }
}

pub(crate) fn skippable_line_at(s: &Vec<char>, i: usize) -> (r: Option<usize>)
    requires
        i <= s@.len(),
    ensures
        match skippable_line(s@, i as int) {
            Some(e) => r matches Some(f) && f == e && i <= e <= s@.len(),
            None => r is None,
        },
{
    if opens_a_branch_header_at(s, i) {
        return None;
    }
    let p = skip_padding(s, i);
    match line_ending_exec(s, p) {
        Some(e) => {
            proof { crate::parser::kakinoki::lemma_padding_within(s@, i as int); }
            Some(e)
        },
        None => not_move_line_at(false, s, i),
    }
}

/// A node read from a run, before its branches are hung on it: the node a
/// line makes, and the comments under the line.
pub open spec fn node_is(m: MoveFormat, n: (MoveFormat, Seq<Seq<char>>)) -> bool {
    &&& m.move_ == n.0.move_
    &&& m.time == n.0.time
    &&& m.special == n.0.special
    &&& comments_are(m.comments, n.1)
    &&& m.forks is None
}

/// Whether the nodes `v` are the nodes `ns`, one for one.
pub open spec fn nodes_are(v: Seq<MoveFormat>, ns: Seq<(MoveFormat, Seq<Seq<char>>)>) -> bool {
    &&& v.len() == ns.len()
    &&& forall|k: int| 0 <= k < v.len() ==> node_is(#[trigger] v[k], ns[k])
}

/// A node with nothing in it, which a run's leading comments make theirs.
pub open spec fn bare_node() -> MoveFormat {
    MoveFormat { move_: None, comments: None, time: None, special: None, forks: None }
}

/// Whose turn follows a node played on `side`'s turn: only a move passes the
/// turn, and an outcome takes a ply number without taking a turn.
pub open spec fn spec_next_side(m: MoveFormat, side: Color) -> Color {
    if m.move_ is None { side } else { side.spec_flip() }
}

/// The rest of a run from `b`, `side` to move: past blank and `#` lines, a
/// move line and the comments under it, again and again until a line is no
/// move line (the run ends before the lines skipped in front of it). A move
/// line that is broken is an error.
pub open spec fn run_rest(start: Color, side: Color, s: Seq<char>, b: int)
    -> Result<(Seq<(MoveFormat, Seq<Seq<char>>)>, int), (int, LineFault)>
    decreases s.len() - b,
{
    let k = skip_interruptions(s, b);
    match spec_kif_line(start, Some(side), s, k) {
        Err(None) => Ok((Seq::empty(), b)),
        Err(Some(x)) => Err(x),
        Ok((_, m, e)) => {
            let (c, f) = comment_run(s, e);
            if b < f <= s.len() {
                match run_rest(start, spec_next_side(m, side), s, f) {
                    Ok((ns, g)) => Ok((seq![(m, c)] + ns, g)),
                    Err(x) => Err(x),
                }
            } else {
                Ok((seq![(m, c)], f))
            }
        },
    }
}

fn next_side(m: &MoveFormat, side: Color) -> (c: Color)
    ensures
        c == spec_next_side(*m, side),
{
    if m.move_.is_none() { side } else { side.flip() }
}

fn node_with_comments(m: MoveFormat, comments: Option<Vec<String>>) -> (n: MoveFormat)
    ensures
        n == (MoveFormat { comments, ..m }),
{
    MoveFormat { comments, ..m }
}

proof fn lemma_appended(before: Seq<MoveFormat>, node: MoveFormat, fin: Seq<MoveFormat>, n0: (MoveFormat, Seq<Seq<char>>), ns: Seq<(MoveFormat, Seq<Seq<char>>)>)
    requires
        node_is(node, n0),
        fin.len() >= before.len() + 1,
        fin.take(before.len() as int + 1) == before.push(node),
        nodes_are(fin.skip(before.len() as int + 1), ns),
    ensures
        fin.take(before.len() as int) == before,
        nodes_are(fin.skip(before.len() as int), seq![n0] + ns),
{
    let b = before.len() as int;
    assert forall|k: int| 0 <= k < b implies fin.take(b)[k] == before[k] by {
        assert(fin.take(b + 1)[k] == before.push(node)[k]);
    }
    assert(fin.take(b) =~= before);
    assert(fin[b] == fin.take(b + 1)[b]);
    let all = seq![n0] + ns;
    assert forall|k: int| 0 <= k < all.len() implies node_is(#[trigger] fin.skip(b)[k], all[k]) by {
        if k > 0 {
            assert(fin.skip(b)[k] == fin.skip(b + 1)[k - 1]);
        } else {
            assert(fin.skip(b)[0] == node);
        }
    }
}

pub(crate) proof fn lemma_joined(before: Seq<MoveFormat>, fin: Seq<MoveFormat>, pre: Seq<(MoveFormat, Seq<Seq<char>>)>, ns: Seq<(MoveFormat, Seq<Seq<char>>)>)
    requires
        nodes_are(before, pre),
        fin.len() >= before.len(),
        fin.take(before.len() as int) == before,
        nodes_are(fin.skip(before.len() as int), ns),
    ensures
        nodes_are(fin, pre + ns),
{
    let b = before.len() as int;
    let all = pre + ns;
    assert forall|k: int| 0 <= k < all.len() implies node_is(#[trigger] fin[k], all[k]) by {
        if k < b {
            assert(fin[k] == fin.take(b)[k]);
        } else {
            assert(fin[k] == fin.skip(b)[k - b]);
        }
    }
}

/// Reads the rest of a run from `b` (see [`run_rest`]) onto the end of `out`.
fn run_rest_into(start: Color, side: Color, s: &Vec<char>, b: usize, out: &mut Vec<MoveFormat>) -> (r: Result<usize, Refusal>)
    requires
        b <= s@.len(),
    ensures
        match run_rest(start, side, s@, b as int) {
            Ok((ns, g)) => r matches Ok(h) && h == g && g <= s@.len()
                && final(out)@.len() >= old(out)@.len()
                && final(out)@.take(old(out)@.len() as int) == old(out)@
                && nodes_are(final(out)@.skip(old(out)@.len() as int), ns),
            Err(x) => r matches Err(y) && refusal_is(y, Some(x)),
        },
    decreases s@.len() - b,
{
    let k = skip_interruptions_at(s, b);
    match kif_line_at(start, Some(side), s, k) {
        Err(Refusal::NotThis) => {
            assert(out@.skip(out@.len() as int) =~= Seq::<MoveFormat>::empty());
            assert(out@.take(out@.len() as int) =~= out@);
            Ok(b)
        },
        Err(y) => Err(y),
        Ok((_, m, e)) => {
            let (c, f) = comments_at(s, e);
            let next = next_side(&m, side);
            let ghost m0 = m;
            let node = node_with_comments(m, c);
            let ghost before = out@;
            out.push(node);
            if b < f {
                let r = run_rest_into(start, next, s, f, out);
                proof {
                    if r is Ok {
                        let ns = (run_rest(start, next, s@, f as int)->Ok_0).0;
                        lemma_appended(before, node, out@, (m0, comment_run(s@, e as int).0), ns);
                    }
                }
                r
            } else {
                assert(out@.take(before.len() as int) =~= before);
                assert(out@.skip(before.len() as int) =~= seq![node]);
                Ok(f)
            }
        },
    }
}

/// A run of moves at `i`: comment lines that open it (a node of their own),
/// a first move line, whose number is the ply the run starts at, the rest of
/// the run (see [`run_rest`]), and then one line between runs if one
/// follows. The ply, the nodes and where the run ends; `None` when no move
/// line opens it.
#[verifier::opaque]
pub open spec fn spec_run(start: Color, s: Seq<char>, i: int)
    -> Result<(int, Seq<(MoveFormat, Seq<Seq<char>>)>, int), Option<(int, LineFault)>>
{
    let (lc, a) = comment_run(s, i);
    match spec_kif_line(start, None, s, a) {
        Err(x) => Err(x),
        Ok((ply, m, e)) => {
            let (c, f) = comment_run(s, e);
            match run_rest(start, spec_next_side(m, spec_side_to_move_at_ply(start, ply)), s, f) {
                Err(x) => Err(Some(x)),
                Ok((ns, g)) => {
                    let lead = if lc.len() > 0 { seq![(bare_node(), lc)] } else { Seq::empty() };
                    let h = match skippable_line(s, g) {
                        Some(h) => h,
                        None => g,
                    };
                    Ok((ply, lead + seq![(m, c)] + ns, h))
                },
            }
        },
    }
}

/// Reads a run of moves at `i` (see [`spec_run`]).
#[verifier::rlimit(60)]
#[verifier::spinoff_prover]
pub(crate) fn run_at(start: Color, s: &Vec<char>, i: usize) -> (r: Result<(usize, Vec<MoveFormat>, usize), Refusal>)
    requires
        i <= s@.len(),
    ensures
        match spec_run(start, s@, i as int) {
            Ok((ply, ns, h)) => r matches Ok((p, v, e)) && p == ply && e == h && e <= s@.len() && nodes_are(v@, ns),
            Err(x) => r matches Err(y) && refusal_is(y, x),
        },
{
    reveal(spec_run);
    let (lc, a) = comments_at(s, i);
    let (ply, m, e) = match kif_line_at(start, None, s, a) {
        Err(y) => return Err(y),
        Ok(x) => x,
    };
    let (c, f) = comments_at(s, e);
    let side = next_side(&m, side_to_move_at_ply(start, ply));
    let ghost m0 = m;
    let mut v: Vec<MoveFormat> = Vec::new();
    let has_lead = lc.is_some();
    if has_lead {
        v.push(MoveFormat { move_: None, comments: lc, time: None, special: None, forks: None });
    }
    v.push(node_with_comments(m, c));
    let ghost before = v@;
    let g = match run_rest_into(start, side, s, f, &mut v) {
        Err(y) => return Err(y),
        Ok(g) => g,
    };
    proof {
        let ns = (run_rest(start, side, s@, f as int)->Ok_0).0;
        let lcs = comment_run(s@, i as int).0;
        let lead = if lcs.len() > 0 { seq![(bare_node(), lcs)] } else { Seq::<(MoveFormat, Seq<Seq<char>>)>::empty() };
        let pre = lead + seq![(m0, comment_run(s@, e as int).0)];
        assert(nodes_are(before, pre)) by {
            if has_lead {
                assert(lcs.len() > 0);
                assert(before[0].comments == lc);
            } else {
                assert(lcs.len() == 0);
            }
        }
        lemma_joined(before, v@, pre, ns);
    }
    let h = match skippable_line_at(s, g) {
        Some(h) => h,
        None => g,
    };
    Ok((ply, v, h))
}

/// Past the lines between runs from `i`, `変化：` headers left where they are
/// (see [`skippable_line`]).
pub open spec fn skip_lines(s: Seq<char>, i: int) -> int
    decreases s.len() - i,
{
    match skippable_line(s, i) {
        Some(e) => if i < e <= s.len() { skip_lines(s, e) } else { i },
        None => i,
    }
}

fn skip_lines_at(s: &Vec<char>, i: usize) -> (j: usize)
    requires
        i <= s@.len(),
    ensures
        j == skip_lines(s@, i as int),
        j <= s@.len(),
    decreases s@.len() - i,
{
    match skippable_line_at(s, i) {
        Some(e) => if i < e { skip_lines_at(s, e) } else { i },
        None => i,
    }
}

/// A `変化：<N>` header at `i`, `手` after the number if it is there: the
/// number, in ASCII digits right after the colon, and where the header ends.
/// The shapes a header merely looks like (another colon, padding, digits of
/// another width) are no header the move list reads.
pub open spec fn branch_header_at_line(s: Seq<char>, i: int) -> Option<(int, int)> {
    if !lit_at(s, i, "変化："@) {
        None
    } else {
        match small_number_at(s, i + 3, usize::MAX as int) {
            None => None,
            Some((n, d)) => Some((if char_at(s, d, '手') { d + 1 } else { d }, n)),
        }
    }
}

pub(crate) fn branch_header_at_line_exec(s: &Vec<char>, i: usize) -> (r: Option<(usize, usize)>)
    requires
        i <= s@.len(),
    ensures
        match branch_header_at_line(s@, i as int) {
            Some((e, n)) => r matches Some((f, m)) && f == e && m == n && e <= s@.len(),
            None => r is None,
        },
{
    if !lit_at_exec(s, i, "変化：") {
        return None;
    }
    proof { reveal_strlit("変化："); }
    match small_number_exec(s, i + 3, usize::MAX) {
        None => None,
        Some((n, d)) => Some((if char_at_exec(s, d, '手') { d + 1 } else { d }, n)),
    }
}

/// A `変化：<N>手` line at `i` and its end: where the line after it starts.
/// One that runs into the line below is an error.
pub open spec fn spec_branch_line(s: Seq<char>, i: int) -> Result<int, Option<(int, LineFault)>> {
    match branch_header_at_line(s, i) {
        None => Err(None),
        Some((e, _)) => ends_here(LineShapes::Kif, s, i, e),
    }
}

fn branch_line_at(s: &Vec<char>, i: usize) -> (r: Result<usize, Refusal>)
    requires
        i <= s@.len(),
    ensures
        match spec_branch_line(s@, i as int) {
            Ok(e) => r matches Ok(f) && f == e && e <= s@.len(),
            Err(x) => r matches Err(y) && refusal_is(y, x),
        },
{
    match branch_header_at_line_exec(s, i) {
        None => Err(Refusal::NotThis),
        Some((e, _)) => ends_here_exec(LineShapes::Kif, s, i, e),
    }
}

/// The lines above the main line from `i`: blank lines, `変化：` headers
/// (a branch cannot come before the moves it is an alternative to) and lines
/// the move list has no shape for. A header that runs into the line below is
/// an error.
pub open spec fn leading_lines(s: Seq<char>, i: int) -> Result<int, (int, LineFault)>
    decreases s.len() - i,
{
    let next = match line_ending_at(s, padding_end(s, i)) {
        Some(e) => Ok(Some(e)),
        None => match spec_branch_line(s, i) {
            Ok(e) => Ok(Some(e)),
            Err(Some(x)) => Err(x),
            Err(None) => match spec_not_move_line(false, s, i) {
                Some((_, n)) => Ok(Some(n)),
                None => Ok(None),
            },
        },
    };
    match next {
        Err(x) => Err(x),
        Ok(None) => Ok(i),
        Ok(Some(e)) => if i < e <= s.len() { leading_lines(s, e) } else { Ok(i) },
    }
}

fn leading_lines_at(s: &Vec<char>, i: usize) -> (r: Result<usize, Refusal>)
    requires
        i <= s@.len(),
    ensures
        match leading_lines(s@, i as int) {
            Ok(e) => r matches Ok(f) && f == e && e <= s@.len(),
            Err(x) => r matches Err(y) && refusal_is(y, Some(x)),
        },
    decreases s@.len() - i,
{
    let p = skip_padding(s, i);
    let next = match line_ending_exec(s, p) {
        Some(e) => Some(e),
        None => match branch_line_at(s, i) {
            Ok(e) => Some(e),
            Err(Refusal::NotThis) => not_move_line_at(false, s, i),
            Err(y) => return Err(y),
        },
    };
    match next {
        None => Ok(i),
        Some(e) => if i < e && e <= s.len() { leading_lines_at(s, e) } else { Ok(i) },
    }
}

/// The `変化：` headers in a row at `r`, with the lines between them: the
/// line of the last (or `header` when there is none), and where they end.
pub open spec fn header_lines(s: Seq<char>, r: int, header: Option<int>) -> Result<(Option<int>, int), (int, LineFault)>
    decreases s.len() - r,
{
    match spec_branch_line(s, r) {
        Ok(after) => {
            let r2 = skip_lines(s, after);
            if r < r2 <= s.len() { header_lines(s, r2, Some(r)) } else { Ok((Some(r), r2)) }
        },
        Err(Some(x)) => Err(x),
        Err(None) => Ok((header, r)),
    }
}

fn header_lines_at(s: &Vec<char>, r: usize, header: Option<usize>) -> (res: Result<(Option<usize>, usize), Refusal>)
    requires
        r <= s@.len(),
    ensures
        match header_lines(s@, r as int, match header { Some(h) => Some(h as int), None => None }) {
            Ok((h, e)) => res matches Ok((g, f)) && f == e && e <= s@.len()
                && match h { Some(a) => g matches Some(b) && b == a, None => g is None },
            Err(x) => res matches Err(y) && refusal_is(y, Some(x)),
        },
    decreases s@.len() - r,
{
    match branch_line_at(s, r) {
        Ok(after) => {
            let r2 = skip_lines_at(s, after);
            if r < r2 { header_lines_at(s, r2, Some(r)) } else { Ok((Some(r), r2)) }
        },
        Err(Refusal::NotThis) => Ok((header, r)),
        Err(y) => Err(y),
    }
}

/// Whether everything from `i` to the end is padding and line ends.
pub open spec fn all_blank(s: Seq<char>, i: int) -> bool {
    forall|k: int| i <= k < s.len() ==> spec_is_padding(#[trigger] s[k]) || s[k] == '\n' || s[k] == '\r'
}

pub(crate) fn all_blank_at(s: &Vec<char>, i: usize) -> (b: bool)
    requires
        i <= s@.len(),
    ensures
        b == all_blank(s@, i as int),
{
    let mut k = i;
    while k < s.len()
        invariant
            i <= k <= s@.len(),
            forall|j: int| i <= j < k ==> spec_is_padding(#[trigger] s@[j]) || s@[j] == '\n' || s@[j] == '\r',
        decreases s@.len() - k,
    {
        let c = s[k];
        if !(is_padding(c) || c == '\n' || c == '\r') {
            return false;
        }
        k = k + 1;
    }
    true
}

/// The `変化：` blocks from `i`, in the order the file lists them: each run
/// with the ply it starts at. Headers in a row are taken as one; a header
/// with nothing under it but blank lines to the end of the text is a branch
/// that is gone, and an error.
pub open spec fn fork_runs(start: Color, s: Seq<char>, i: int)
    -> Result<(Seq<(int, Seq<(MoveFormat, Seq<Seq<char>>)>)>, int), (int, LineFault)>
    decreases s.len() - i,
{
    match header_lines(s, skip_lines(s, i), None) {
        Err(x) => Err(x),
        Ok((header, r)) => match spec_run(start, s, r) {
            Ok((ply, ns, after)) => if i < after <= s.len() {
                match fork_runs(start, s, after) {
                    Ok((fs, e)) => Ok((seq![(ply, ns)] + fs, e)),
                    Err(x) => Err(x),
                }
            } else {
                Ok((seq![(ply, ns)], after))
            },
            Err(Some(x)) => Err(x),
            Err(None) => match header {
                Some(h) => if all_blank(s, r) { Err((h, LineFault::EmptyBranch)) } else { Ok((Seq::empty(), r)) },
                None => Ok((Seq::empty(), r)),
            },
        },
    }
}

/// Whether the runs `v` are the runs `fs`, one for one.
pub open spec fn runs_are(v: Seq<(usize, Vec<MoveFormat>)>, fs: Seq<(int, Seq<(MoveFormat, Seq<Seq<char>>)>)>) -> bool {
    &&& v.len() == fs.len()
    &&& forall|k: int| 0 <= k < v.len() ==> (#[trigger] v[k]).0 == fs[k].0 && nodes_are(v[k].1@, fs[k].1)
}

pub(crate) proof fn lemma_run_appended(before: Seq<(usize, Vec<MoveFormat>)>, run: (usize, Vec<MoveFormat>), fin: Seq<(usize, Vec<MoveFormat>)>, f0: (int, Seq<(MoveFormat, Seq<Seq<char>>)>), fs: Seq<(int, Seq<(MoveFormat, Seq<Seq<char>>)>)>)
    requires
        run.0 == f0.0 && nodes_are(run.1@, f0.1),
        fin.len() >= before.len() + 1,
        fin.take(before.len() as int + 1) == before.push(run),
        runs_are(fin.skip(before.len() as int + 1), fs),
    ensures
        fin.take(before.len() as int) == before,
        runs_are(fin.skip(before.len() as int), seq![f0] + fs),
{
    let b = before.len() as int;
    assert forall|k: int| 0 <= k < b implies fin.take(b)[k] == before[k] by {
        assert(fin.take(b + 1)[k] == before.push(run)[k]);
    }
    assert(fin.take(b) =~= before);
    assert(fin[b] == fin.take(b + 1)[b]);
    let all = seq![f0] + fs;
    assert forall|k: int| 0 <= k < all.len() implies (#[trigger] fin.skip(b)[k]).0 == all[k].0 && nodes_are(fin.skip(b)[k].1@, all[k].1) by {
        if k > 0 {
            assert(fin.skip(b)[k] == fin.skip(b + 1)[k - 1]);
        } else {
            assert(fin.skip(b)[0] == run);
        }
    }
}

#[verifier::rlimit(80)]
#[verifier::spinoff_prover]
fn fork_runs_into(start: Color, s: &Vec<char>, i: usize, out: &mut Vec<(usize, Vec<MoveFormat>)>) -> (r: Result<usize, Refusal>)
    requires
        i <= s@.len(),
    ensures
        match fork_runs(start, s@, i as int) {
            Ok((fs, e)) => r matches Ok(f) && f == e && e <= s@.len()
                && final(out)@.len() >= old(out)@.len()
                && final(out)@.take(old(out)@.len() as int) == old(out)@
                && runs_are(final(out)@.skip(old(out)@.len() as int), fs),
            Err(x) => r matches Err(y) && refusal_is(y, Some(x)),
        },
    decreases s@.len() - i,
{
    let r0 = skip_lines_at(s, i);
    let (header, r) = match header_lines_at(s, r0, None) {
        Err(y) => return Err(y),
        Ok(x) => x,
    };
    match run_at(start, s, r) {
        Ok((ply, v, after)) => {
            let ghost before = out@;
            let ghost ns = (spec_run(start, s@, r as int)->Ok_0).1;
            out.push((ply, v));
            if i < after {
                let res = fork_runs_into(start, s, after, out);
                proof {
                    if res is Ok {
                        let fs = (fork_runs(start, s@, after as int)->Ok_0).0;
                        lemma_run_appended(before, (ply, v), out@, (ply as int, ns), fs);
                    }
                }
                res
            } else {
                assert(out@.take(before.len() as int) =~= before);
                assert(out@.skip(before.len() as int) =~= seq![(ply, v)]);
                Ok(after)
            }
        },
        Err(Refusal::NotThis) => {
            let fail = match header {
                Some(h) => all_blank_at(s, r),
                None => false,
            };
            if fail {
                match header {
                    Some(h) => Err(Refusal::Broken(h, LineFault::EmptyBranch)),
                    None => Ok(r),
                }
            } else {
                assert(out@.take(out@.len() as int) =~= out@);
                assert(out@.skip(out@.len() as int) =~= Seq::<(usize, Vec<MoveFormat>)>::empty());
                Ok(r)
            }
        },
        Err(y) => Err(y),
    }
}

/// Where in `run` the node at ply `at` sits, the node at `k` being ply
/// `ply` if it takes one: a node holding only comments takes no number.
pub open spec fn ply_index(run: Seq<NodeT>, ply: int, at: int, k: int) -> Option<int>
    decreases run.len() - k,
{
    if k < 0 || k >= run.len() {
        None
    } else if occupies(run[k]) {
        if ply == at {
            Some(k)
        } else if ply > at {
            None
        } else {
            ply_index(run, ply + 1, at, k + 1)
        }
    } else {
        ply_index(run, ply, at, k + 1)
    }
}

/// `fork`, which starts at ply `at`, hung off `run`, whose first numbered
/// node is ply `base`: as a branch of the node at that ply, after the ones it
/// has; where the run has no such node, as the run going on.
pub open spec fn attach_t(run: Seq<NodeT>, base: int, at: int, fork: Seq<NodeT>) -> Seq<NodeT> {
    match ply_index(run, base, at, 0) {
        Some(k) => run.update(k, with_fork(run[k], fork)),
        None => run + fork,
    }
}

/// The run `run`, starting at ply `i`, with the runs on top of `stack` that
/// start past ply `i` hung on it, the topmost first; and what is left of
/// the stack.
pub open spec fn absorb(stack: Seq<(int, Seq<NodeT>)>, i: int, run: Seq<NodeT>) -> (Seq<(int, Seq<NodeT>)>, Seq<NodeT>)
    decreases stack.len(),
{
    if stack.len() > 0 && stack.last().0 > i {
        absorb(stack.drop_last(), i, attach_t(run, i, stack.last().0, stack.last().1))
    } else {
        (stack, run)
    }
}

/// The runs from the `k`th on, each with the later runs it takes hung on
/// it: a run takes those after it that start past its ply up to the first
/// that does not. What is left has the earliest run on top.
pub open spec fn pending(fs: Seq<(int, Seq<NodeT>)>, k: int) -> Seq<(int, Seq<NodeT>)>
    decreases fs.len() - k,
{
    if k < 0 || k >= fs.len() {
        Seq::empty()
    } else {
        let (st, run) = absorb(pending(fs, k + 1), fs[k].0, fs[k].1);
        st.push((fs[k].0, run))
    }
}

/// The runs left on `stack` hung off the main line, whose first numbered
/// node is ply 1, the topmost first.
pub open spec fn hang_roots(main: Seq<NodeT>, stack: Seq<(int, Seq<NodeT>)>) -> Seq<NodeT>
    decreases stack.len(),
{
    if stack.len() == 0 {
        main
    } else {
        hang_roots(attach_t(main, 1, stack.last().0, stack.last().1), stack.drop_last())
    }
}

/// The main line with the `変化：` runs `fs` hung on it, in the order the
/// file lists them: each run on the nearest run before it that starts at an
/// earlier ply, the others on the main line (see [`attach_t`]).
pub open spec fn merged_moves(main: Seq<NodeT>, fs: Seq<(int, Seq<NodeT>)>) -> Seq<NodeT> {
    hang_roots(main, pending(fs, 0))
}

/// Where in `run` the node at ply `at` sits (see [`ply_index`]).
fn index_of_ply(run: &Vec<MoveFormat>, base: usize, at: usize, Ghost(rt): Ghost<Seq<NodeT>>) -> (r: Option<usize>)
    requires
        lines_are(run@, rt),
    ensures
        match ply_index(rt, base as int, at as int, 0) {
            Some(k) => 0 <= k < run@.len() && r == Some(k as usize),
            None => r is None,
        },
        r matches Some(i) ==> i < run@.len(),
{
    let mut ply = base;
    let mut k: usize = 0;
    while k < run.len()
        invariant
            k <= run@.len(),
            lines_are(run@, rt),
            ply_index(rt, ply as int, at as int, k as int) == ply_index(rt, base as int, at as int, 0),
        decreases run@.len() - k,
    {
        assert(tree_is(run@[k as int], rt[k as int]));
        if run[k].occupies_a_ply() {
            if ply == at {
                return Some(k);
            }
            if ply > at {
                return None;
            }
            ply = ply + 1;
        }
        k = k + 1;
    }
    None
}

/// Hangs `fork`, which starts at ply `at`, off `run`, whose first numbered
/// node is ply `base` (see [`attach_t`]).
fn attach(run: &mut Vec<MoveFormat>, base: usize, at: usize, fork: Vec<MoveFormat>, Ghost(rt): Ghost<Seq<NodeT>>, Ghost(ft): Ghost<Seq<NodeT>>)
    requires
        lines_are(old(run)@, rt),
        lines_are(fork@, ft),
    ensures
        lines_are(final(run)@, attach_t(rt, base as int, at as int, ft)),
{
    match index_of_ply(run, base, at, Ghost(rt)) {
        Some(idx) => {
            let ghost o = run@;
            let node = run.remove(idx);
            let ghost m = node;
            let MoveFormat { move_, comments, time, special, forks } = node;
            let forks = match forks {
                Some(v) => {
                    let mut v = v;
                    v.push(fork);
                    v
                },
                None => {
                    let mut v: Vec<Vec<MoveFormat>> = Vec::new();
                    v.push(fork);
                    v
                },
            };
            let n = MoveFormat { move_, comments, time, special, forks: Some(forks) };
            run.insert(idx, n);
            proof {
                assert(tree_is(o[idx as int], rt[idx as int]));
                lemma_pushed_fork(m, rt[idx as int], match m.forks { Some(w) => w@, None => Seq::<Vec<MoveFormat>>::empty() }, fork, ft, n);
                lemma_lines_update(o, rt, idx as int, n, with_fork(rt[idx as int], ft));
                assert(run@ =~= o.update(idx as int, n));
            }
        },
        None => {
            let ghost o = run@;
            let ghost f0 = fork@;
            let mut f = fork;
            run.append(&mut f);
            proof {
                lemma_lines_concat(o, rt, f0, ft);
            }
        },
    }
}

/// Hangs the runs `forks`, in the order the file lists them, off the main
/// line `moves` (see [`merged_moves`]).
fn merge_forks(moves: &mut Vec<MoveFormat>, forks: Vec<(usize, Vec<MoveFormat>)>, Ghost(mt): Ghost<Seq<NodeT>>, Ghost(fs): Ghost<Seq<(int, Seq<NodeT>)>>)
    requires
        lines_are(old(moves)@, mt),
        runs_are_trees(forks@, fs),
    ensures
        lines_are(final(moves)@, merged_moves(mt, fs)),
{
    let mut forks = forks;
    let mut stack: Vec<(usize, Vec<MoveFormat>)> = Vec::new();
    assert(forks@.take(fs.len() as int) =~= forks@);
    assert(fs.take(fs.len() as int) =~= fs);
    while forks.len() > 0
        invariant
            forks@.len() <= fs.len(),
            runs_are_trees(forks@, fs.take(forks@.len() as int)),
            runs_are_trees(stack@, pending(fs, forks@.len() as int)),
        decreases forks@.len(),
    {
        let ghost k = forks@.len() - 1;
        let ghost before = forks@;
        let (i, run) = forks.pop().unwrap();
        assert(forks@ =~= before.drop_last());
        assert(before[k] == (i, run));
        assert(fs.take(k + 1)[k] == fs[k]);
        assert(forks@.len() == k);
        assert(runs_are_trees(forks@, fs.take(k))) by {
            assert forall|j: int| 0 <= j < k implies (#[trigger] forks@[j]).0 == fs.take(k)[j].0 && lines_are(forks@[j].1@, fs.take(k)[j].1) by {
                assert(forks@[j] == before[j]);
                assert(fs.take(k + 1)[j] == fs.take(k)[j]);
            }
        }
        let mut run = run;
        let ghost mut st = pending(fs, k + 1);
        let ghost mut rn = fs[k].1;
        while stack.len() > 0 && stack[stack.len() - 1].0 > i
            invariant
                runs_are_trees(stack@, st),
                lines_are(run@, rn),
                i == fs[k].0,
                0 <= k < fs.len(),
                absorb(st, i as int, rn) == absorb(pending(fs, k + 1), fs[k].0, fs[k].1),
            decreases stack@.len(),
        {
            let ghost sb = stack@;
            let (j, f) = stack.pop().unwrap();
            assert(stack@ =~= sb.drop_last());
            assert(sb[sb.len() - 1] == (j, f));
            proof {
                assert(sb[sb.len() - 1].0 == st[st.len() - 1].0);
            }
            attach(&mut run, i, j, f, Ghost(rn), Ghost(st.last().1));
            proof {
                rn = attach_t(rn, i as int, st.last().0, st.last().1);
                st = st.drop_last();
                assert forall|q: int| 0 <= q < st.len() implies (#[trigger] stack@[q]).0 == st[q].0 && lines_are(stack@[q].1@, st[q].1) by {
                    assert(stack@[q] == sb[q]);
                }
            }
        }
        let ghost sb = stack@;
        stack.push((i, run));
        proof {
            assert(pending(fs, k) == st.push((fs[k].0, rn)));
            assert forall|q: int| 0 <= q < st.len() + 1 implies (#[trigger] stack@[q]).0 == st.push((fs[k].0, rn))[q].0 && lines_are(stack@[q].1@, st.push((fs[k].0, rn))[q].1) by {
                if q < st.len() {
                    assert(stack@[q] == sb[q]);
                }
            }
        }
    }
    let ghost mut mv = mt;
    let ghost mut st = pending(fs, 0);
    while stack.len() > 0
        invariant
            runs_are_trees(stack@, st),
            lines_are(moves@, mv),
            hang_roots(mv, st) == merged_moves(mt, fs),
        decreases stack@.len(),
    {
        let ghost sb = stack@;
        let (i, fork) = stack.pop().unwrap();
        assert(stack@ =~= sb.drop_last());
        assert(sb[sb.len() - 1] == (i, fork));
        attach(moves, 1, i, fork, Ghost(mv), Ghost(st.last().1));
        proof {
            mv = attach_t(mv, 1, st.last().0, st.last().1);
            st = st.drop_last();
            assert forall|q: int| 0 <= q < st.len() implies (#[trigger] stack@[q]).0 == st[q].0 && lines_are(stack@[q].1@, st[q].1) by {
                assert(stack@[q] == sb[q]);
            }
        }
    }
}

/// The runs `fs` as trees, none with a branch yet.
pub open spec fn run_trees(fs: Seq<(int, Seq<(MoveFormat, Seq<Seq<char>>)>)>) -> Seq<(int, Seq<NodeT>)> {
    fs.map_values(|f: (int, Seq<(MoveFormat, Seq<Seq<char>>)>)| (f.0, leaves(f.1)))
}

pub(crate) proof fn lemma_run_trees(v: Seq<(usize, Vec<MoveFormat>)>, fs: Seq<(int, Seq<(MoveFormat, Seq<Seq<char>>)>)>)
    requires
        runs_are(v, fs),
    ensures
        runs_are_trees(v, run_trees(fs)),
{
    assert forall|k: int| 0 <= k < fs.len() implies (#[trigger] v[k]).0 == run_trees(fs)[k].0 && lines_are(v[k].1@, run_trees(fs)[k].1) by {
        lemma_leaves(v[k].1@, fs[k].1);
    }
}

/// The move tree a KIF move list describes: the main line with its
/// `変化：` runs hung on it (see [`merged_moves`]).
pub open spec fn kif_tree(main: Seq<(MoveFormat, Seq<Seq<char>>)>, fs: Seq<(int, Seq<(MoveFormat, Seq<Seq<char>>)>)>) -> Seq<NodeT> {
    merged_moves(leaves(main), run_trees(fs))
}

/// The move list at `i`: the lines above the main line, the comments on the
/// starting position, the main line's run (none when no move line opens
/// it), and the `変化：` blocks after it. The main line, with the starting
/// position's node first, the branch runs, and where the list ends.
pub open spec fn spec_kif_moves(start: Color, s: Seq<char>, i: int)
    -> Result<(Seq<(MoveFormat, Seq<Seq<char>>)>, Seq<(int, Seq<(MoveFormat, Seq<Seq<char>>)>)>, int), (int, LineFault)>
{
    match leading_lines(s, i) {
        Err(x) => Err(x),
        Ok(a) => {
            let (mc, b) = comment_run(s, a);
            let run = match spec_run(start, s, b) {
                Ok((_, ns, h)) => Ok((ns, h)),
                Err(None) => Ok((Seq::empty(), b)),
                Err(Some(x)) => Err(x),
            };
            match run {
                Err(x) => Err(x),
                Ok((ns, c)) => match fork_runs(start, s, c) {
                    Err(x) => Err(x),
                    Ok((fs, e)) => Ok((seq![(bare_node(), mc)] + ns, fs, e)),
                },
            }
        },
    }
}

/// Reads the move list at `i` (see [`spec_kif_moves`]): the main line with
/// the `変化：` runs hung on it (see [`kif_tree`]), and where the list ends.
#[verifier::rlimit(60)]
#[verifier::spinoff_prover]
pub(crate) fn kif_moves_at(start: Color, s: &Vec<char>, i: usize) -> (r: Result<(Vec<MoveFormat>, usize), Refusal>)
    requires
        i <= s@.len(),
    ensures
        match spec_kif_moves(start, s@, i as int) {
            Ok((main, fs, e)) => r matches Ok((v, f)) && f == e && e <= s@.len()
                && lines_are(v@, kif_tree(main, fs)),
            Err(x) => r matches Err(y) && refusal_is(y, Some(x)),
        },
{
    let a = match leading_lines_at(s, i) {
        Err(y) => return Err(y),
        Ok(a) => a,
    };
    let (mc, b) = comments_at(s, a);
    let mut moves: Vec<MoveFormat> = Vec::new();
    moves.push(MoveFormat { move_: None, comments: mc, time: None, special: None, forks: None });
    let c = match run_at(start, s, b) {
        Ok((_, v, h)) => {
            let mut v = v;
            let ghost first = moves@;
            let ghost v_before = v@;
            moves.append(&mut v);
            proof {
                let ns = (spec_run(start, s@, b as int)->Ok_0).1;
                assert(moves@.take(first.len() as int) =~= first);
                assert(moves@.skip(first.len() as int) =~= v_before);
                lemma_joined(first, moves@, seq![(bare_node(), comment_run(s@, a as int).0)], ns);
            }
            h
        },
        Err(Refusal::NotThis) => {
            assert(nodes_are(moves@, seq![(bare_node(), comment_run(s@, a as int).0)] + Seq::empty()));
            b
        },
        Err(y) => return Err(y),
    };
    let ghost main = moves@;
    let mut forks: Vec<(usize, Vec<MoveFormat>)> = Vec::new();
    let e = match fork_runs_into(start, s, c, &mut forks) {
        Err(y) => return Err(y),
        Ok(e) => e,
    };
    let ghost m = (spec_kif_moves(start, s@, i as int)->Ok_0).0;
    let ghost fsp = (spec_kif_moves(start, s@, i as int)->Ok_0).1;
    proof {
        assert(nodes_are(main, m));
        lemma_leaves(main, m);
        assert(forks@.skip(0) =~= forks@);
        assert(runs_are(forks@, fsp));
        lemma_run_trees(forks@, fsp);
    }
    merge_forks(&mut moves, forks, Ghost(leaves(m)), Ghost(run_trees(fsp)));
    Ok((moves, e))
}

/// Whose turn ply 1 is in the record the block above the moves describes: the
/// side it names over a board (Black when it names none), or the side that
/// moves first in the handicap it names.
pub open spec fn header_start(v: HeaderView) -> Color {
    match v.board {
        Some(_) => match v.side {
            Some(c) => c,
            None => Color::Black,
        },
        None => spec_starting_side(Some(Initial {
            preset: match v.info.preset {
                Some(p) => p,
                None => Preset::PresetHirate,
            },
            data: None,
        })),
    }
}

/// A KIF text read: the block above the moves, and the move list under it
/// (see [`spec_kif_moves`]).
pub open spec fn spec_kif_read(s: Seq<char>)
    -> Result<(HeaderView, Seq<(MoveFormat, Seq<Seq<char>>)>, Seq<(int, Seq<(MoveFormat, Seq<Seq<char>>)>)>, int), (int, LineFault)>
{
    match spec_parse_without_moves(LineShapes::Kif, s) {
        Err(x) => Err(x),
        Ok((v, d)) => match spec_kif_moves(header_start(v), s, d) {
            Err(x) => Err(x),
            Ok((m, fs, e)) => Ok((v, m, fs, e)),
        },
    }
}

/// Reads a KIF text (see [`spec_kif_read`]): the record, with the comments
/// among the header lines put on the starting position, whether the block
/// above the moves held anything, and where the reader stopped.
pub(crate) fn kif_read(s: &Vec<char>) -> (r: Result<(JsonKifuFormat, bool, usize), Refusal>)
    ensures
        match spec_kif_read(s@) {
            Ok((v, main, fs, e)) => r matches Ok((j, h, f)) && f == e && e <= s@.len()
                && h == (spec_parse_without_moves(LineShapes::Kif, s@)->Ok_0.1 > 0)
                && 0 <= spec_parse_without_moves(LineShapes::Kif, s@)->Ok_0.1
                && record_read(j, v, kif_tree(main, fs)),
            Err(x) => r matches Err(y) && refusal_is(y, Some(x)),
        },
{
    let (d, hb) = match header_block_at(LineShapes::Kif, s) {
        Ok(x) => x,
        Err(y) => return Err(y),
    };
    let ghost v = spec_parse_without_moves(LineShapes::Kif, s@)->Ok_0.0;
    let start = starting_side(hb.jkf.initial.as_ref());
    assert(start == header_start(v));
    let (moves, e) = match kif_moves_at(start, s, d) {
        Ok(x) => x,
        Err(y) => return Err(y),
    };
    let HeaderBlock { jkf, comments, a_board_could_follow: _ } = hb;
    let mut jkf = jkf;
    let ghost before = moves@;
    let ghost hc = comments@;
    jkf.moves = moves;
    comments_on_the_starting_position(comments, &mut jkf.moves);
    proof {
        let t = spec_kif_read(s@)->Ok_0;
        lemma_header_comments(before, jkf.moves@, kif_tree(t.1, t.2), hc, v.info.comments);
    }
    Ok((jkf, d > 0, e))
}

} // verus!
