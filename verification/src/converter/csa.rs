//! CSA: `V2.2`, the player names and game fields, the starting position, then
//! one line per move with its time and comments.

use vstd::prelude::*;
use crate::converter::{fail, finished, header_get, header_value, ok, outcome, plies, then};
use crate::error::{ConvertError, kind_name, spec_kind_name};
use crate::handicap::{spec_removed, spec_side_to_move};
use crate::jkf::{Color, Hand, Initial, JsonKifuFormat, MoveFormat, MoveMoveFormat, Piece, PlaceFormat, TimeFormat, spec_csa_word, spec_promoted};
use crate::converter::kakinoki::{one_line, write_one_line};
use crate::position::cell;
use crate::text::{decimal, push_decimal};

verus! {

/// `+` for Black, `-` for White.
pub open spec fn csa_color(c: Color) -> Seq<char> {
    match c {
        Color::Black => "+"@,
        Color::White => "-"@,
    }
}

/// A square as its two digits, or `00` for the hand a drop comes from. A
/// place off the board is an error: its digits would read back as another
/// square, or as the hand.
pub open spec fn csa_place(p: Option<PlaceFormat>) -> (Seq<char>, Option<ConvertError>) {
    match p {
        None => ok("00"@),
        Some(p) => if 1 <= p.x <= 9 && 1 <= p.y <= 9 {
            ok(decimal(p.x as nat) + decimal(p.y as nat))
        } else {
            fail(ConvertError::InvalidSquare((p.x, p.y)))
        },
    }
}

/// A player's `N+`/`N-` line: the first key's value, or the second's when the
/// first is absent, on one line; nothing when that value is empty or absent.
pub open spec fn name_line(h: Seq<(String, String)>, mark: Seq<char>, first: Seq<char>, second: Seq<char>) -> Seq<char> {
    let v = match header_get(h, first) {
        Some(v) => Some(v),
        None => header_get(h, second),
    };
    match v {
        Some(v) => if v.len() > 0 { "N"@ + mark + one_line(v) + "\n"@ } else { Seq::empty() },
        None => Seq::empty(),
    }
}

/// A `$` field line for a header entry, when the record has it, with the
/// value's line ends taken out as the KIF and KI2 headers have them.
pub open spec fn field_line(h: Seq<(String, String)>, prefix: Seq<char>, key: Seq<char>) -> Seq<char> {
    match header_get(h, key) {
        Some(v) => prefix + one_line(v) + "\n"@,
        None => Seq::empty(),
    }
}

/// The version line, the players (先手 or 下手, 後手 or 上手) and the event,
/// site and opening.
pub open spec fn spec_csa_header(h: Seq<(String, String)>) -> Seq<char> {
    "V2.2\n"@
        + name_line(h, "+"@, "先手"@, "下手"@)
        + name_line(h, "-"@, "後手"@, "上手"@)
        + field_line(h, "$EVENT:"@, "棋戦"@)
        + field_line(h, "$SITE:"@, "場所"@)
        + field_line(h, "$OPENING:"@, "戦型"@)
}

/// A square of a board row: its owner and kind, or ` * ` when empty.
pub open spec fn csa_cell(p: Piece) -> Seq<char> {
    match cell(p) {
        Some(cp) => csa_color(cp.color) + spec_kind_name(cp.kind),
        None => " * "@,
    }
}

/// The first `n` squares of row `rank - 1`, from file 9 down.
pub open spec fn csa_cells(b: [[Piece; 9]; 9], row: int, n: int) -> Seq<char>
    decreases n,
{
    if n <= 0 {
        Seq::empty()
    } else {
        csa_cells(b, row, n - 1) + csa_cell(b@[8 - (n - 1)]@[row])
    }
}

/// The first `n` rows of a board, `P1` to `P<n>`.
pub open spec fn csa_rows(b: [[Piece; 9]; 9], n: int) -> Seq<char>
    decreases n,
{
    if n <= 0 {
        Seq::empty()
    } else {
        csa_rows(b, n - 1) + "P"@ + decimal(n as nat) + csa_cells(b, n - 1, 9) + "\n"@
    }
}

/// `s`, `n` times.
pub open spec fn repeat(s: Seq<char>, n: nat) -> Seq<char>
    decreases n,
{
    if n == 0 {
        Seq::empty()
    } else {
        repeat(s, (n - 1) as nat) + s
    }
}

/// A hand as a `P+`/`P-` line that spells out every piece, or nothing for an
/// empty hand.
pub open spec fn csa_hand_line(h: Hand, mark: Seq<char>) -> Seq<char> {
    if h == Hand::spec_empty() {
        Seq::empty()
    } else {
        "P"@ + mark
            + repeat("00HI"@, h.HI as nat) + repeat("00KA"@, h.KA as nat) + repeat("00KI"@, h.KI as nat)
            + repeat("00GI"@, h.GI as nat) + repeat("00KE"@, h.KE as nat) + repeat("00KY"@, h.KY as nat)
            + repeat("00FU"@, h.FU as nat) + "\n"@
    }
}

/// The pieces a handicap takes off, as square and kind.
pub open spec fn csa_removed(r: Seq<(u8, u8, crate::jkf::Kind)>) -> Seq<char>
    decreases r.len(),
{
    if r.len() == 0 {
        Seq::empty()
    } else {
        csa_removed(r.drop_last()) + decimal(r.last().0 as nat) + decimal(r.last().1 as nat) + spec_kind_name(r.last().2)
    }
}

/// The starting position: the board row by row, both hands, and the side to
/// move; or `PI` with what a handicap takes off; `PI` and Black to move when
/// the record does not say.
pub open spec fn spec_csa_initial(initial: Option<Initial>) -> (Seq<char>, Option<ConvertError>) {
    match initial {
        None => ok("PI\n+\n"@),
        Some(i) => match i.data {
            Some(d) => ok(csa_rows(d.board, 9) + csa_hand_line(d.hands@[0], "+"@) + csa_hand_line(d.hands@[1], "-"@) + csa_color(d.color) + "\n"@),
            None => match spec_removed(i.preset) {
                None => fail(ConvertError::UnknownPreset(i.preset)),
                Some(r) => ok("PI"@ + csa_removed(r) + "\n"@ + csa_color(spec_side_to_move(i.preset)) + "\n"@),
            },
        },
    }
}

/// A move line: color, origin (`00` for a drop), destination and the kind
/// after the move.
pub open spec fn csa_move_line(m: MoveMoveFormat) -> (Seq<char>, Option<ConvertError>) {
    then(ok(csa_color(m.color)), then(csa_place(m.from), then(csa_place(Some(m.to)),
        ok(spec_kind_name(if m.promote == Some(true) { spec_promoted(m.piece) } else { m.piece }) + "\n"@))))
}

/// A time in seconds.
pub open spec fn seconds(t: TimeFormat) -> nat {
    ((match t.h { Some(h) => h as nat, None => 0 }) * 3600 + t.m * 60 + t.s) as nat
}

/// Comment lines, each after `mark`.
pub open spec fn comment_lines(c: Seq<String>, mark: Seq<char>) -> Seq<char>
    decreases c.len(),
{
    if c.len() == 0 {
        Seq::empty()
    } else {
        comment_lines(c.drop_last(), mark) + mark + c.last()@ + "\n"@
    }
}

/// A node: its move line or its `%` outcome line, its `T` time line when it has
/// a line at all (a reader takes `T` as the time of the line above), and its
/// comments.
pub open spec fn csa_node(n: MoveFormat) -> (Seq<char>, Option<ConvertError>) {
    let line = match n.move_ {
        Some(m) => csa_move_line(m),
        None => match n.special {
            Some(sp) => ok("%"@ + spec_csa_word(sp) + "\n"@),
            None => ok(Seq::empty()),
        },
    };
    let time = match n.time {
        Some(t) => if n.spec_occupies_a_ply() { "T"@ + decimal(seconds(t.now)) + "\n"@ } else { Seq::empty() },
        None => Seq::empty(),
    };
    let comments = match n.comments {
        Some(c) => comment_lines(c@, "'"@),
        None => Seq::empty(),
    };
    then(line, ok(time + comments))
}

/// The nodes, one after another, up to the first that cannot be written.
pub open spec fn csa_nodes(moves: Seq<MoveFormat>) -> (Seq<char>, Option<ConvertError>)
    decreases moves.len(),
{
    if moves.len() == 0 {
        ok(Seq::empty())
    } else {
        then(csa_nodes(moves.drop_last()), csa_node(moves.last()))
    }
}

/// A record in CSA: header, starting position, then the moves after the
/// starting position's slot.
pub open spec fn spec_csa(j: JsonKifuFormat) -> (Seq<char>, Option<ConvertError>) {
    then(ok(spec_csa_header(j.header@)), then(spec_csa_initial(j.initial), csa_nodes(plies(j.moves@))))
}

fn write_color(s: &mut String, c: Color)
    ensures
        final(s)@ == old(s)@ + csa_color(c),
{
    match c {
        Color::Black => s.append("+"),
        Color::White => s.append("-"),
    }
}

fn write_place(s: &mut String, p: Option<PlaceFormat>) -> (r: Result<(), ConvertError>)
    ensures
        final(s)@ == old(s)@ + csa_place(p).0,
        r == outcome(csa_place(p)),
{
    match p {
        None => {
            s.append("00");
            Ok(())
        },
        Some(p) => {
            if 1 <= p.x && p.x <= 9 && 1 <= p.y && p.y <= 9 {
                push_decimal(s, p.x as u64, 0, ' ');
                push_decimal(s, p.y as u64, 0, ' ');
                assert(s@ =~= old(s)@ + csa_place(Some(p)).0);
                Ok(())
            } else {
                assert(s@ =~= old(s)@ + csa_place(Some(p)).0);
                Err(ConvertError::InvalidSquare((p.x, p.y)))
            }
        },
    }
}

fn write_name_line(s: &mut String, h: &Vec<(String, String)>, mark: &str, first: &str, second: &str)
    ensures
        final(s)@ == old(s)@ + name_line(h@, mark@, first@, second@),
{
    let v = match header_value(h, first) {
        Some(v) => Some(v),
        None => header_value(h, second),
    };
    if let Some(v) = v {
        if v.as_str().unicode_len() > 0 {
            s.append("N");
            s.append(mark);
            write_one_line(s, v.as_str());
            s.append("\n");
        }
    }
    assert(s@ =~= old(s)@ + name_line(h@, mark@, first@, second@));
}

fn write_field_line(s: &mut String, h: &Vec<(String, String)>, prefix: &str, key: &str)
    ensures
        final(s)@ == old(s)@ + field_line(h@, prefix@, key@),
{
    if let Some(v) = header_value(h, key) {
        s.append(prefix);
        write_one_line(s, v.as_str());
        s.append("\n");
    }
    assert(s@ =~= old(s)@ + field_line(h@, prefix@, key@));
}

fn write_header(s: &mut String, h: &Vec<(String, String)>)
    ensures
        final(s)@ == old(s)@ + spec_csa_header(h@),
{
    s.append("V2.2\n");
    write_name_line(s, h, "+", "先手", "下手");
    write_name_line(s, h, "-", "後手", "上手");
    write_field_line(s, h, "$EVENT:", "棋戦");
    write_field_line(s, h, "$SITE:", "場所");
    write_field_line(s, h, "$OPENING:", "戦型");
    assert(s@ =~= old(s)@ + spec_csa_header(h@));
}

fn write_cell(s: &mut String, p: Piece)
    ensures
        final(s)@ == old(s)@ + csa_cell(p),
{
    match (p.color, p.kind) {
        (Some(c), Some(k)) => {
            write_color(s, c);
            s.append(kind_name(k));
        },
        _ => s.append(" * "),
    }
    assert(s@ =~= old(s)@ + csa_cell(p));
}

fn write_rows(s: &mut String, b: &[[Piece; 9]; 9])
    ensures
        final(s)@ == old(s)@ + csa_rows(*b, 9),
{
    let mut i: usize = 0;
    while i < 9
        invariant
            i <= 9,
            s@ == old(s)@ + csa_rows(*b, i as int),
        decreases 9 - i,
    {
        s.append("P");
        push_decimal(s, (i + 1) as u64, 0, ' ');
        let ghost before = s@;
        let mut j: usize = 0;
        while j < 9
            invariant
                i < 9,
                j <= 9,
                s@ == before + csa_cells(*b, i as int, j as int),
            decreases 9 - j,
        {
            write_cell(s, b[8 - j][i]);
            assert(s@ =~= before + csa_cells(*b, i as int, j + 1));
            j = j + 1;
        }
        s.append("\n");
        assert(s@ =~= old(s)@ + csa_rows(*b, i + 1));
        i = i + 1;
    }
}

fn write_repeat(s: &mut String, t: &str, n: u8)
    ensures
        final(s)@ == old(s)@ + repeat(t@, n as nat),
{
    let mut i: u8 = 0;
    while i < n
        invariant
            i <= n,
            s@ == old(s)@ + repeat(t@, i as nat),
        decreases n - i,
    {
        s.append(t);
        assert(s@ =~= old(s)@ + repeat(t@, (i + 1) as nat));
        i = i + 1;
    }
}

fn write_hand_line(s: &mut String, h: &Hand, mark: &str)
    ensures
        final(s)@ == old(s)@ + csa_hand_line(*h, mark@),
{
    if *h == Hand::empty() {
        assert(s@ =~= old(s)@ + csa_hand_line(*h, mark@));
        return;
    }
    s.append("P");
    s.append(mark);
    write_repeat(s, "00HI", h.HI);
    write_repeat(s, "00KA", h.KA);
    write_repeat(s, "00KI", h.KI);
    write_repeat(s, "00GI", h.GI);
    write_repeat(s, "00KE", h.KE);
    write_repeat(s, "00KY", h.KY);
    write_repeat(s, "00FU", h.FU);
    s.append("\n");
    assert(s@ =~= old(s)@ + csa_hand_line(*h, mark@));
}

fn write_removed(s: &mut String, r: &Vec<(u8, u8, crate::jkf::Kind)>)
    ensures
        final(s)@ == old(s)@ + csa_removed(r@),
{
    let mut k: usize = 0;
    while k < r.len()
        invariant
            k <= r@.len(),
            s@ == old(s)@ + csa_removed(r@.take(k as int)),
        decreases r@.len() - k,
    {
        let (f, rank, kind) = r[k];
        push_decimal(s, f as u64, 0, ' ');
        push_decimal(s, rank as u64, 0, ' ');
        s.append(kind_name(kind));
        assert(r@.take(k + 1).drop_last() =~= r@.take(k as int));
        assert(s@ =~= old(s)@ + csa_removed(r@.take(k + 1)));
        k = k + 1;
    }
    assert(r@.take(r@.len() as int) =~= r@);
}

fn write_initial(s: &mut String, initial: &Option<Initial>) -> (r: Result<(), ConvertError>)
    ensures
        final(s)@ == old(s)@ + spec_csa_initial(*initial).0,
        r == outcome(spec_csa_initial(*initial)),
{
    match initial {
        None => {
            s.append("PI\n+\n");
            Ok(())
        },
        Some(i) => match &i.data {
            Some(d) => {
                write_rows(s, &d.board);
                write_hand_line(s, &d.hands[0], "+");
                write_hand_line(s, &d.hands[1], "-");
                write_color(s, d.color);
                s.append("\n");
                assert(s@ =~= old(s)@ + spec_csa_initial(*initial).0);
                Ok(())
            },
            None => match crate::handicap::lookup(i.preset) {
                None => {
                    assert(s@ =~= old(s)@ + spec_csa_initial(*initial).0);
                    Err(ConvertError::UnknownPreset(i.preset))
                },
                Some(handicap) => {
                    s.append("PI");
                    write_removed(s, &handicap.removed);
                    s.append("\n");
                    write_color(s, crate::handicap::side_to_move(i.preset));
                    s.append("\n");
                    assert(s@ =~= old(s)@ + spec_csa_initial(*initial).0);
                    Ok(())
                },
            },
        },
    }
}

fn write_move_line(s: &mut String, m: &MoveMoveFormat) -> (r: Result<(), ConvertError>)
    ensures
        final(s)@ == old(s)@ + csa_move_line(*m).0,
        r == outcome(csa_move_line(*m)),
{
    write_color(s, m.color);
    let ghost a = s@;
    let r1 = write_place(s, m.from);
    if r1.is_err() {
        assert(s@ =~= old(s)@ + csa_move_line(*m).0);
        return r1;
    }
    let ghost b = s@;
    let r2 = write_place(s, Some(m.to));
    if r2.is_err() {
        assert(s@ =~= old(s)@ + csa_move_line(*m).0);
        return r2;
    }
    let kind = if m.promote == Some(true) { m.piece.promoted() } else { m.piece };
    s.append(kind_name(kind));
    s.append("\n");
    assert(s@ =~= old(s)@ + csa_move_line(*m).0);
    Ok(())
}

/// Appends comment lines, each after `mark`.
pub fn write_comment_lines(s: &mut String, c: &Vec<String>, mark: &str)
    ensures
        final(s)@ == old(s)@ + comment_lines(c@, mark@),
{
    let mut k: usize = 0;
    while k < c.len()
        invariant
            k <= c@.len(),
            s@ == old(s)@ + comment_lines(c@.take(k as int), mark@),
        decreases c@.len() - k,
    {
        s.append(mark);
        s.append(c[k].as_str());
        s.append("\n");
        assert(c@.take(k + 1).drop_last() =~= c@.take(k as int));
        assert(s@ =~= old(s)@ + comment_lines(c@.take(k + 1), mark@));
        k = k + 1;
    }
    assert(c@.take(c@.len() as int) =~= c@);
}

fn write_node(s: &mut String, n: &MoveFormat) -> (r: Result<(), ConvertError>)
    ensures
        final(s)@ == old(s)@ + csa_node(*n).0,
        r == outcome(csa_node(*n)),
{
    match &n.move_ {
        Some(m) => {
            let r = write_move_line(s, m);
            if r.is_err() {
                assert(s@ =~= old(s)@ + csa_node(*n).0);
                return r;
            }
        },
        None => match n.special {
            Some(sp) => {
                s.append("%");
                s.append(sp.csa_word());
                s.append("\n");
            },
            None => {},
        },
    }
    let ghost mid = s@;
    if let Some(t) = n.time {
        if n.occupies_a_ply() {
            let h: u64 = match t.now.h {
                Some(h) => h as u64,
                None => 0,
            };
            s.append("T");
            push_decimal(s, h * 3600 + t.now.m as u64 * 60 + t.now.s as u64, 0, ' ');
            s.append("\n");
        }
    }
    if let Some(c) = &n.comments {
        write_comment_lines(s, c, "'");
    }
    assert(s@ =~= old(s)@ + csa_node(*n).0);
    Ok(())
}

proof fn lemma_nodes_stop(moves: Seq<MoveFormat>, k: int, j: int)
    requires
        0 <= k <= j <= moves.len(),
        csa_nodes(moves.take(k)).1 is Some,
    ensures
        csa_nodes(moves.take(j)) == csa_nodes(moves.take(k)),
    decreases j - k,
{
    if j > k {
        lemma_nodes_stop(moves, k, j - 1);
        assert(moves.take(j).drop_last() =~= moves.take(j - 1));
    }
}

fn write_nodes(s: &mut String, moves: &Vec<MoveFormat>, from: usize) -> (r: Result<(), ConvertError>)
    requires
        from <= moves@.len(),
    ensures
        final(s)@ == old(s)@ + csa_nodes(moves@.skip(from as int)).0,
        r == outcome(csa_nodes(moves@.skip(from as int))),
{
    let ghost ms = moves@.skip(from as int);
    let mut i: usize = from;
    assert(ms.take(0) =~= Seq::<MoveFormat>::empty());
    while i < moves.len()
        invariant
            from <= i <= moves@.len(),
            ms == moves@.skip(from as int),
            s@ == old(s)@ + csa_nodes(ms.take(i - from)).0,
            csa_nodes(ms.take(i - from)).1 is None,
        decreases moves@.len() - i,
    {
        let ghost before = s@;
        let r = write_node(s, &moves[i]);
        proof {
            assert(ms.take(i - from + 1).drop_last() =~= ms.take(i - from));
            assert(ms.take(i - from + 1).last() == moves@[i as int]);
        }
        if r.is_err() {
            proof {
                lemma_nodes_stop(ms, i - from + 1, ms.len() as int);
                assert(ms.take(ms.len() as int) =~= ms);
            }
            return r;
        }
        i = i + 1;
    }
    assert(ms.take(ms.len() as int) =~= ms);
    Ok(())
}

/// A record that can be written in CSA.
pub trait ToCsa {
    /// Appends `self` in CSA to `sink`. A record holding a place off the board,
    /// or a preset with no board, is an error; what was written before it stays.
    fn to_csa(&self, sink: &mut String) -> Result<(), ConvertError>;

    /// `self` in CSA, or the error that stopped it.
    fn try_to_csa_owned(&self) -> Result<String, ConvertError>;

    /// `self` in CSA, or as much of it as could be written.
    fn to_csa_owned(&self) -> String;
}

impl ToCsa for JsonKifuFormat {
    fn to_csa(&self, sink: &mut String) -> (r: Result<(), ConvertError>)
        ensures
            final(sink)@ == old(sink)@ + spec_csa(*self).0,
            r == outcome(spec_csa(*self)),
    {
        write_header(sink, &self.header);
        let ghost a = sink@;
        let r = write_initial(sink, &self.initial);
        if r.is_err() {
            assert(sink@ =~= old(sink)@ + spec_csa(*self).0);
            return r;
        }
        let ghost b = sink@;
        let r = if self.moves.len() == 0 {
            Ok(())
        } else {
            write_nodes(sink, &self.moves, 1)
        };
        proof {
            if self.moves@.len() > 0 {
                assert(self.moves@.skip(1) =~= plies(self.moves@));
            } else {
                assert(plies(self.moves@) =~= Seq::<MoveFormat>::empty());
            }
        }
        assert(sink@ =~= old(sink)@ + spec_csa(*self).0);
        r
    }

    fn try_to_csa_owned(&self) -> (r: Result<String, ConvertError>)
        ensures
            match r {
                Ok(s) => finished(spec_csa(*self)) == Ok::<Seq<char>, ConvertError>(s@),
                Err(e) => finished(spec_csa(*self)) == Err::<Seq<char>, ConvertError>(e),
            },
    {
        let mut s = String::new();
        match self.to_csa(&mut s) {
            Ok(()) => {
                assert(s@ =~= spec_csa(*self).0);
                Ok(s)
            },
            Err(e) => Err(e),
        }
    }

    fn to_csa_owned(&self) -> (s: String)
        ensures
            s@ == spec_csa(*self).0,
    {
        let mut s = String::new();
        let _ = self.to_csa(&mut s);
        assert(s@ =~= spec_csa(*self).0);
        s
    }
}

} // verus!
