//! KIF: header, starting position, then one numbered line per move with its
//! time, and a `変化：N手` block for each branch.

use vstd::prelude::*;
use crate::converter::{fail, lemma_then_assoc, finished, lemma_then_all_step, lemma_then_all_stop, lemma_then_all_whole, ok, outcome, then, then_all};
use crate::converter::kakinoki::{comments_text, kansuji_text, sanyou_suji_text, spec_kakinoki_header, spec_kakinoki_initial, write_comments, write_header, write_initial, write_kansuji, write_sanyou_suji};
use crate::error::ConvertError;
use crate::jkf::{JsonKifuFormat, MoveFormat, MoveMoveFormat, PlaceFormat, Time, TimeFormat, spec_kif_word};
use crate::notation::{move_word, spec_move_word};
use crate::text::{decimal, pad_left, push_char, push_decimal};

verus! {

/// The next ply number; it stays put at the largest a `u64` holds.
pub open spec fn next_ply(p: u64) -> u64 {
    if p < u64::MAX { (p + 1) as u64 } else { p }
}

/// The ply of node `k` of a line whose first line is numbered `first`: nodes
/// with neither a move nor an outcome have no line and take no number.
pub open spec fn ply_at(moves: Seq<MoveFormat>, first: u64, k: int) -> u64
    decreases k,
{
    if k <= 0 {
        first
    } else if moves[k - 1].spec_occupies_a_ply() {
        next_ply(ply_at(moves, first, k - 1))
    } else {
        ply_at(moves, first, k - 1)
    }
}

/// A place that must be on the board, as two digits.
pub open spec fn origin_text(p: PlaceFormat) -> (Seq<char>, Option<ConvertError>) {
    if 1 <= p.x <= 9 && 1 <= p.y <= 9 {
        ok("("@ + decimal(p.x as nat) + decimal(p.y as nat) + ")"@)
    } else {
        fail(ConvertError::InvalidSquare((p.x, p.y)))
    }
}

/// A move: destination (`同　` for a recapture), piece, `成` when it promotes,
/// and the origin in brackets or `打` for a drop. KIF never writes `不成`.
pub open spec fn kif_move_text(m: MoveMoveFormat) -> (Seq<char>, Option<ConvertError>) {
    then(
        if m.same is Some { ok("同　"@) } else { then(sanyou_suji_text(m.to.x), kansuji_text(m.to.y)) },
        then(ok(spec_move_word(m.piece) + if m.promote == Some(true) { "成"@ } else { Seq::empty() }),
            match m.from {
                Some(p) => origin_text(p),
                None => ok("打"@),
            }))
}

/// How wide a move's text is, in half-width columns.
pub open spec fn move_width(m: MoveMoveFormat) -> int {
    4 + spec_move_word(m.piece).len() * 2 + (if m.promote == Some(true) { 2int } else { 0 })
        + (if m.from is Some { 4int } else { 2 })
}

/// The word KIF writes for an outcome: `中断` where it has none.
pub open spec fn kif_special_word(sp: crate::jkf::MoveSpecial) -> Seq<char> {
    match spec_kif_word(sp) {
        Some(w) => w,
        None => "中断"@,
    }
}

/// A number in at least two digits.
pub open spec fn two_digits(n: nat) -> Seq<char> {
    pad_left(decimal(n), 2, '0')
}

/// A move's own time, as minutes (an hour folds into them) and seconds.
pub open spec fn move_time_text(t: TimeFormat) -> Seq<char> {
    let minutes = (match t.h { Some(h) => h as nat, None => 0nat }) * 60 + t.m;
    pad_left(decimal(minutes as nat), 2, ' ') + ":"@ + two_digits(t.s as nat)
}

/// A running total, as hours, minutes and seconds.
pub open spec fn total_time_text(t: TimeFormat) -> Seq<char> {
    let hours = match t.h { Some(h) => h as nat, None => 0nat };
    two_digits(hours) + ":"@ + two_digits(t.m as nat) + ":"@ + two_digits(t.s as nat)
}

/// The time column: the move's own time, then the running total.
pub open spec fn time_text(t: Time) -> Seq<char> {
    "("@ + move_time_text(t.now) + "/"@ + total_time_text(t.total) + ")"@
}

/// Spaces up to column 13, from a text `width` columns wide.
pub open spec fn padding_to_time(width: int) -> Seq<char> {
    Seq::new(if width < 13 { (13 - width) as nat } else { 0 }, |_i: int| ' ')
}

/// What a node with a line says: its move, or its outcome word.
pub open spec fn node_body(n: MoveFormat) -> (Seq<char>, Option<ConvertError>) {
    match n.move_ {
        Some(m) => kif_move_text(m),
        None => ok(kif_special_word(n.special.unwrap())),
    }
}

/// How wide [`node_body`] is, in half-width columns.
pub open spec fn node_width(n: MoveFormat) -> int {
    match n.move_ {
        Some(m) => move_width(m),
        None => (kif_special_word(n.special.unwrap()).len() * 2) as int,
    }
}

/// A node's line: the ply, what it says, and the time column when the node has
/// a time.
pub open spec fn node_line(n: MoveFormat, ply: u64) -> (Seq<char>, Option<ConvertError>) {
    let tail = match n.time {
        Some(t) => padding_to_time(node_width(n)) + time_text(t),
        None => Seq::empty(),
    };
    then(ok(pad_left(decimal(ply as nat), 4, ' ') + " "@), then(node_body(n), ok(tail + "\n"@)))
}

/// A node's line, when it has one, and its comments.
pub open spec fn kif_node(n: MoveFormat, ply: u64) -> (Seq<char>, Option<ConvertError>) {
    if n.spec_occupies_a_ply() {
        then(node_line(n, ply), ok(comments_text(n.comments)))
    } else {
        ok(comments_text(n.comments))
    }
}

/// The lines of each node of a line, numbered from `first`.
pub open spec fn kif_main(moves: Seq<MoveFormat>, first: u64) -> (Seq<char>, Option<ConvertError>) {
    then_all(Seq::new(moves.len(), |k: int| kif_node(moves[k], ply_at(moves, first, k))))
}

/// A line and, after it, a block for each branch leaving it: the branches of
/// the last node first, and of each node the last branch first.
pub open spec fn kif_lines(moves: Seq<MoveFormat>, first: u64) -> (Seq<char>, Option<ConvertError>)
    decreases moves, 2nat,
{
    then(kif_main(moves, first), kif_blocks(moves, first, moves.len() as int))
}

/// The branch blocks of the first `n` nodes of a line, latest node first.
pub open spec fn kif_blocks(moves: Seq<MoveFormat>, first: u64, n: int) -> (Seq<char>, Option<ConvertError>)
    decreases moves, 1nat, n,
{
    if n <= 0 || n > moves.len() {
        ok(Seq::empty())
    } else {
        then(kif_node_blocks(moves[n - 1].forks, ply_at(moves, first, n - 1)), kif_blocks(moves, first, n - 1))
    }
}

/// The blocks of one node's branches, last branch first.
pub open spec fn kif_node_blocks(forks: Option<Vec<Vec<MoveFormat>>>, ply: u64) -> (Seq<char>, Option<ConvertError>)
    decreases forks, 0nat, 0int,
{
    match forks {
        None => ok(Seq::empty()),
        Some(fs) => kif_fork_blocks(fs@, ply, fs@.len() as int),
    }
}

/// The blocks of the first `n` branches, last first: an empty line, `変化：N手`,
/// and the branch's own lines numbered from `N`.
pub open spec fn kif_fork_blocks(fs: Seq<Vec<MoveFormat>>, ply: u64, n: int) -> (Seq<char>, Option<ConvertError>)
    decreases fs, 0nat, n,
{
    if n <= 0 || n > fs.len() {
        ok(Seq::empty())
    } else {
        then(then(ok("\n変化："@ + decimal(ply as nat) + "手\n"@), kif_lines(fs[n - 1]@, ply)), kif_fork_blocks(fs, ply, n - 1))
    }
}

/// The move section: its heading, the starting position's comments, and the
/// moves after it numbered from 1.
pub open spec fn kif_moves(moves: Seq<MoveFormat>) -> (Seq<char>, Option<ConvertError>) {
    if moves.len() == 0 {
        ok("手数----指手---------消費時間--\n"@)
    } else {
        then(ok("手数----指手---------消費時間--\n"@ + comments_text(moves[0].comments)), kif_lines(moves.drop_first(), 1))
    }
}

/// A record in KIF: header, starting position, moves.
pub open spec fn spec_kif(j: JsonKifuFormat) -> (Seq<char>, Option<ConvertError>) {
    then(ok(spec_kakinoki_header(j.header@)), then(spec_kakinoki_initial(j.initial), kif_moves(j.moves@)))
}


fn write_origin(s: &mut String, p: PlaceFormat) -> (r: Result<(), ConvertError>)
    ensures
        final(s)@ == old(s)@ + origin_text(p).0,
        r == outcome(origin_text(p)),
{
    if 1 <= p.x && p.x <= 9 && 1 <= p.y && p.y <= 9 {
        s.append("(");
        push_decimal(s, p.x as u64, 0, ' ');
        push_decimal(s, p.y as u64, 0, ' ');
        s.append(")");
        assert(s@ =~= old(s)@ + origin_text(p).0);
        Ok(())
    } else {
        assert(s@ =~= old(s)@ + origin_text(p).0);
        Err(ConvertError::InvalidSquare((p.x, p.y)))
    }
}

fn write_move_text(s: &mut String, m: &MoveMoveFormat) -> (r: Result<(), ConvertError>)
    ensures
        final(s)@ == old(s)@ + kif_move_text(*m).0,
        r == outcome(kif_move_text(*m)),
{
    if m.same.is_some() {
        s.append("同　");
    } else {
        let r = write_sanyou_suji(s, m.to.x);
        if r.is_err() {
            assert(s@ =~= old(s)@ + kif_move_text(*m).0);
            return r;
        }
        let r = write_kansuji(s, m.to.y);
        if r.is_err() {
            assert(s@ =~= old(s)@ + kif_move_text(*m).0);
            return r;
        }
    }
    let ghost dest = s@;
    s.append(move_word(m.piece));
    if m.promote == Some(true) {
        s.append("成");
    }
    let r = match m.from {
        Some(p) => write_origin(s, p),
        None => {
            s.append("打");
            Ok(())
        },
    };
    assert(s@ =~= old(s)@ + kif_move_text(*m).0);
    r
}

fn write_move_time(s: &mut String, t: &TimeFormat)
    ensures
        final(s)@ == old(s)@ + move_time_text(*t),
{
    let h: u64 = match t.h {
        Some(h) => h as u64,
        None => 0,
    };
    push_decimal(s, h * 60 + t.m as u64, 2, ' ');
    s.append(":");
    push_decimal(s, t.s as u64, 2, '0');
    assert(s@ =~= old(s)@ + move_time_text(*t));
}

fn write_total_time(s: &mut String, t: &TimeFormat)
    ensures
        final(s)@ == old(s)@ + total_time_text(*t),
{
    let h: u64 = match t.h {
        Some(h) => h as u64,
        None => 0,
    };
    push_decimal(s, h, 2, '0');
    s.append(":");
    push_decimal(s, t.m as u64, 2, '0');
    s.append(":");
    push_decimal(s, t.s as u64, 2, '0');
    assert(s@ =~= old(s)@ + total_time_text(*t));
}

fn write_time(s: &mut String, t: &Time)
    ensures
        final(s)@ == old(s)@ + time_text(*t),
{
    s.append("(");
    write_move_time(s, &t.now);
    s.append("/");
    write_total_time(s, &t.total);
    s.append(")");
    assert(s@ =~= old(s)@ + time_text(*t));
}

proof fn lemma_move_word_len(k: crate::jkf::Kind)
    ensures
        spec_move_word(k).len() <= 2,
{
    reveal_strlit("歩"); reveal_strlit("香"); reveal_strlit("桂"); reveal_strlit("銀");
    reveal_strlit("金"); reveal_strlit("角"); reveal_strlit("飛"); reveal_strlit("玉");
    reveal_strlit("と"); reveal_strlit("成香"); reveal_strlit("成桂"); reveal_strlit("成銀");
    reveal_strlit("馬"); reveal_strlit("龍");
}

proof fn lemma_kif_word_len(sp: crate::jkf::MoveSpecial)
    ensures
        kif_special_word(sp).len() <= 4,
{
    reveal_strlit("投了"); reveal_strlit("中断"); reveal_strlit("千日手"); reveal_strlit("切れ負け");
    reveal_strlit("反則負け"); reveal_strlit("反則勝ち"); reveal_strlit("持将棋"); reveal_strlit("入玉勝ち");
    reveal_strlit("詰み"); reveal_strlit("不詰");
}

fn write_padding(s: &mut String, width: usize)
    ensures
        final(s)@ == old(s)@ + padding_to_time(width as int),
{
    let n: usize = if width < 13 { 13 - width } else { 0 };
    let mut i: usize = 0;
    while i < n
        invariant
            i <= n,
            n == (if width < 13 { 13 - width } else { 0 }),
            s@ == old(s)@ + Seq::new(i as nat, |_k: int| ' '),
        decreases n - i,
    {
        push_char(s, ' ');
        assert(s@ =~= old(s)@ + Seq::new((i + 1) as nat, |_k: int| ' '));
        i = i + 1;
    }
    assert(s@ =~= old(s)@ + padding_to_time(width as int));
}

fn write_body(s: &mut String, n: &MoveFormat) -> (r: (Result<(), ConvertError>, usize))
    requires
        n.spec_occupies_a_ply(),
    ensures
        final(s)@ == old(s)@ + node_body(*n).0,
        r.0 == outcome(node_body(*n)),
        r.1 == node_width(*n),
{
    match &n.move_ {
        Some(m) => {
            let r = write_move_text(s, m);
            proof { lemma_move_word_len(m.piece); }
            let w = move_word(m.piece).unicode_len() * 2;
            (r, 4 + w + (if m.promote == Some(true) { 2 } else { 0 }) + (if m.from.is_some() { 4 } else { 2 }))
        },
        None => {
            let sp = n.special.unwrap();
            let word = match sp.kif_word() {
                Some(w) => w,
                None => "中断",
            };
            s.append(word);
            proof { lemma_kif_word_len(sp); }
            (Ok(()), word.unicode_len() * 2)
        },
    }
}

fn write_node_line(s: &mut String, n: &MoveFormat, ply: u64) -> (r: Result<(), ConvertError>)
    requires
        n.spec_occupies_a_ply(),
    ensures
        final(s)@ == old(s)@ + node_line(*n, ply).0,
        r == outcome(node_line(*n, ply)),
{
    push_decimal(s, ply, 4, ' ');
    s.append(" ");
    let ghost head = s@;
    let (r, width) = write_body(s, n);
    if r.is_err() {
        assert(s@ =~= old(s)@ + node_line(*n, ply).0);
        return r;
    }
    let ghost body = s@;
    if let Some(t) = &n.time {
        write_padding(s, width);
        write_time(s, t);
    }
    s.append("\n");
    assert(s@ =~= old(s)@ + node_line(*n, ply).0);
    Ok(())
}

fn write_node(s: &mut String, n: &MoveFormat, ply: u64) -> (r: Result<(), ConvertError>)
    ensures
        final(s)@ == old(s)@ + kif_node(*n, ply).0,
        r == outcome(kif_node(*n, ply)),
{
    if !n.occupies_a_ply() {
        write_comments(s, &n.comments);
        return Ok(());
    }
    let r = write_node_line(s, n, ply);
    if r.is_err() {
        return r;
    }
    write_comments(s, &n.comments);
    assert(s@ =~= old(s)@ + kif_node(*n, ply).0);
    Ok(())
}

fn plies_of(moves: &Vec<MoveFormat>, from: usize, first: u64) -> (p: Vec<u64>)
    requires
        from <= moves@.len(),
    ensures
        p@.len() == moves@.len() - from,
        forall|k: int| 0 <= k < moves@.len() - from ==> p@[k] == ply_at(moves@.skip(from as int), first, k),
{
    let ghost tail = moves@.skip(from as int);
    let mut p: Vec<u64> = Vec::new();
    let mut ply = first;
    let mut k: usize = from;
    while k < moves.len()
        invariant
            from <= k <= moves@.len(),
            tail == moves@.skip(from as int),
            p@.len() == k - from,
            ply == ply_at(tail, first, k - from),
            forall|j: int| 0 <= j < k - from ==> p@[j] == ply_at(tail, first, j),
        decreases moves@.len() - k,
    {
        p.push(ply);
        assert(tail[k - from] == moves@[k as int]);
        if moves[k].occupies_a_ply() && ply < u64::MAX {
            ply = ply + 1;
        }
        k = k + 1;
    }
    p
}

fn write_main(s: &mut String, moves: &Vec<MoveFormat>, from: usize, plies: &Vec<u64>, first: u64) -> (r: Result<(), ConvertError>)
    requires
        from <= moves@.len(),
        plies@.len() == moves@.len() - from,
        forall|k: int| 0 <= k < moves@.len() - from ==> plies@[k] == ply_at(moves@.skip(from as int), first, k),
    ensures
        final(s)@ == old(s)@ + kif_main(moves@.skip(from as int), first).0,
        r == outcome(kif_main(moves@.skip(from as int), first)),
{
    let ghost tail = moves@.skip(from as int);
    let ghost ws = Seq::new(tail.len(), |k: int| kif_node(tail[k], ply_at(tail, first, k)));
    assert(ws.take(0) =~= Seq::<(Seq<char>, Option<ConvertError>)>::empty());
    let mut k: usize = from;
    while k < moves.len()
        invariant
            from <= k <= moves@.len(),
            tail == moves@.skip(from as int),
            ws.len() == tail.len(),
            ws == Seq::new(tail.len(), |k: int| kif_node(tail[k], ply_at(tail, first, k))),
            plies@.len() == tail.len(),
            forall|j: int| 0 <= j < tail.len() ==> plies@[j] == ply_at(tail, first, j),
            s@ == old(s)@ + then_all(ws.take(k - from)).0,
            then_all(ws.take(k - from)).1 is None,
        decreases moves@.len() - k,
    {
        assert(tail[k - from] == moves@[k as int]);
        let r = write_node(s, &moves[k], plies[k - from]);
        proof { lemma_then_all_step(ws, k - from); }
        if r.is_err() {
            proof { lemma_then_all_stop(ws, k - from + 1); }
            return r;
        }
        k = k + 1;
    }
    proof { lemma_then_all_whole(ws); }
    Ok(())
}

/// Appends the line `moves[from..]` and its branch blocks (see [`kif_lines`]).
fn write_lines(s: &mut String, moves: &Vec<MoveFormat>, from: usize, first: u64) -> (r: Result<(), ConvertError>)
    requires
        from <= moves@.len(),
    ensures
        final(s)@ == old(s)@ + kif_lines(moves@.skip(from as int), first).0,
        r == outcome(kif_lines(moves@.skip(from as int), first)),
    decreases moves@, 2nat,
{
    let ghost tail = moves@.skip(from as int);
    let plies = plies_of(moves, from, first);
    let r = write_main(s, moves, from, &plies, first);
    if r.is_err() {
        return r;
    }
    let ghost base = s@;
    let mut n = moves.len() - from;
    assert(s@.subrange(base.len() as int, s@.len() as int) =~= Seq::<char>::empty());
    assert(s@.subrange(0, base.len() as int) =~= base);
    while n > 0
        invariant
            n <= tail.len(),
            n + from <= moves.len(),
            tail == moves@.skip(from as int),
            from <= moves@.len(),
            plies@.len() == tail.len(),
            forall|j: int| 0 <= j < tail.len() ==> plies@[j] == ply_at(tail, first, j),
            base == old(s)@ + kif_main(tail, first).0,
            kif_main(tail, first).1 is None,
            kif_blocks(tail, first, tail.len() as int) == then(ok(s@.subrange(base.len() as int, s@.len() as int)), kif_blocks(tail, first, n as int)),
            base.len() <= s@.len(),
            s@.subrange(0, base.len() as int) == base,
        decreases n,
    {
        let ghost before = s@;
        let ghost w = s@.subrange(base.len() as int, s@.len() as int);
        assert(tail[n - 1] == moves@[from + n - 1]);
        proof {
            assert(decreases_to!(moves@ => moves@[from + n - 1]));
        }
        let r = write_node_blocks(s, &moves[from + n - 1].forks, plies[n - 1]);
        let ghost t = s@.subrange(before.len() as int, s@.len() as int);
        proof {
            let nb = kif_node_blocks(tail[n - 1].forks, ply_at(tail, first, n - 1));
            assert(t =~= nb.0);
            lemma_then_assoc(ok(w), nb, kif_blocks(tail, first, n - 1));
            assert(s@.subrange(base.len() as int, s@.len() as int) =~= w + t);
            assert(s@.subrange(0, base.len() as int) =~= base);
            assert(s@ =~= base + (w + t));
        }
        if r.is_err() {
            assert(s@ =~= old(s)@ + kif_lines(tail, first).0);
            return r;
        }
        n = n - 1;
    }
    assert(s@ =~= base + s@.subrange(base.len() as int, s@.len() as int));
    assert(s@ =~= old(s)@ + kif_lines(tail, first).0);
    Ok(())
}

fn write_node_blocks(s: &mut String, forks: &Option<Vec<Vec<MoveFormat>>>, ply: u64) -> (r: Result<(), ConvertError>)
    ensures
        final(s)@ == old(s)@ + kif_node_blocks(*forks, ply).0,
        r == outcome(kif_node_blocks(*forks, ply)),
    decreases *forks, 1nat,
{
    match forks {
        None => {
            assert(s@ =~= old(s)@ + kif_node_blocks(*forks, ply).0);
            Ok(())
        },
        Some(fs) => {
            proof {
                broadcast use vstd::std_specs::vec::axiom_vec_decreases_to_view;
            }
            write_fork_blocks(s, fs, ply)
        },
    }
}

fn write_fork_blocks(s: &mut String, fs: &Vec<Vec<MoveFormat>>, ply: u64) -> (r: Result<(), ConvertError>)
    ensures
        final(s)@ == old(s)@ + kif_fork_blocks(fs@, ply, fs@.len() as int).0,
        r == outcome(kif_fork_blocks(fs@, ply, fs@.len() as int)),
    decreases fs@, 0nat,
{
    let ghost base = s@;
    let mut n = fs.len();
    assert(s@.subrange(base.len() as int, s@.len() as int) =~= Seq::<char>::empty());
    assert(s@.subrange(0, base.len() as int) =~= base);
    while n > 0
        invariant
            n <= fs@.len(),
            kif_fork_blocks(fs@, ply, fs@.len() as int) == then(ok(s@.subrange(base.len() as int, s@.len() as int)), kif_fork_blocks(fs@, ply, n as int)),
            base.len() <= s@.len(),
            s@.subrange(0, base.len() as int) == base,
            base == old(s)@,
        decreases n,
    {
        let ghost before = s@;
        let ghost w = s@.subrange(base.len() as int, s@.len() as int);
        s.append("\n変化：");
        push_decimal(s, ply, 0, ' ');
        s.append("手\n");
        let ghost head = s@;
        proof {
            broadcast use vstd::std_specs::vec::axiom_vec_decreases_to_view;
            assert(decreases_to!(fs@ => fs@[n - 1]));
            assert(fs@[n - 1]@.skip(0) =~= fs@[n - 1]@);
        }
        let r = write_lines(s, &fs[n - 1], 0, ply);
        let ghost t = s@.subrange(before.len() as int, s@.len() as int);
        proof {
            let hd = ok("\n変化："@ + decimal(ply as nat) + "手\n"@);
            let bl = then(hd, kif_lines(fs@[n - 1]@, ply));
            assert(t =~= bl.0);
            lemma_then_assoc(ok(w), bl, kif_fork_blocks(fs@, ply, n - 1));
            assert(s@.subrange(base.len() as int, s@.len() as int) =~= w + t);
            assert(s@.subrange(0, base.len() as int) =~= base);
            assert(s@ =~= base + (w + t));
        }
        if r.is_err() {
            assert(s@ =~= old(s)@ + kif_fork_blocks(fs@, ply, fs@.len() as int).0);
            return r;
        }
        n = n - 1;
    }
    assert(s@ =~= base + s@.subrange(base.len() as int, s@.len() as int));
    assert(s@ =~= old(s)@ + kif_fork_blocks(fs@, ply, fs@.len() as int).0);
    Ok(())
}

fn write_moves(s: &mut String, moves: &Vec<MoveFormat>) -> (r: Result<(), ConvertError>)
    ensures
        final(s)@ == old(s)@ + kif_moves(moves@).0,
        r == outcome(kif_moves(moves@)),
{
    s.append("手数----指手---------消費時間--\n");
    if moves.len() == 0 {
        return Ok(());
    }
    write_comments(s, &moves[0].comments);
    assert(moves@.skip(1) =~= moves@.drop_first());
    let r = write_lines(s, moves, 1, 1);
    assert(s@ =~= old(s)@ + kif_moves(moves@).0);
    r
}

/// A record that can be written in KIF.
pub trait ToKif {
    /// Appends `self` in KIF to `sink`. A number the notation cannot spell, a
    /// place off the board or a preset with no board is an error; what was
    /// written before it stays.
    fn to_kif(&self, sink: &mut String) -> Result<(), ConvertError>;

    /// `self` in KIF, or the error that stopped it.
    fn try_to_kif_owned(&self) -> Result<String, ConvertError>;

    /// `self` in KIF, or as much of it as could be written.
    fn to_kif_owned(&self) -> String;
}

impl ToKif for JsonKifuFormat {
    fn to_kif(&self, sink: &mut String) -> (r: Result<(), ConvertError>)
        ensures
            final(sink)@ == old(sink)@ + spec_kif(*self).0,
            r == outcome(spec_kif(*self)),
    {
        write_header(sink, &self.header);
        let r = write_initial(sink, &self.initial);
        if r.is_err() {
            assert(sink@ =~= old(sink)@ + spec_kif(*self).0);
            return r;
        }
        let r = write_moves(sink, &self.moves);
        assert(sink@ =~= old(sink)@ + spec_kif(*self).0);
        r
    }

    fn try_to_kif_owned(&self) -> (r: Result<String, ConvertError>)
        ensures
            match r {
                Ok(s) => finished(spec_kif(*self)) == Ok::<Seq<char>, ConvertError>(s@),
                Err(e) => finished(spec_kif(*self)) == Err::<Seq<char>, ConvertError>(e),
            },
    {
        let mut s = String::new();
        match self.to_kif(&mut s) {
            Ok(()) => {
                assert(s@ =~= spec_kif(*self).0);
                Ok(s)
            },
            Err(e) => Err(e),
        }
    }

    fn to_kif_owned(&self) -> (s: String)
        ensures
            s@ == spec_kif(*self).0,
    {
        let mut s = String::new();
        let _ = self.to_kif(&mut s);
        assert(s@ =~= spec_kif(*self).0);
        s
    }
}
} // verus!
