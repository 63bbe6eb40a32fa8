//! What KIF and KI2 share: the header lines, the line or board naming the
//! starting position, and how numbers and comments are spelled.

use vstd::prelude::*;
use crate::converter::{fail, lemma_then_all_step, lemma_then_all_stop, lemma_then_all_whole, ok, outcome, then, then_all};
use crate::error::ConvertError;
use crate::handicap::spec_kif_name;
use crate::jkf::{Color, Hand, Initial, Piece, Preset, StateFormat};
use crate::notation::{board_word, kansuji, kansuji_char, sanyou_suji, sanyou_suji_char, spec_board_word};
use crate::position::cell;
use crate::text::{push_char, seq_starts_with};

verus! {

/// A file as a full-width digit; a number outside 1-9 has no spelling.
pub open spec fn sanyou_suji_text(n: u8) -> (Seq<char>, Option<ConvertError>) {
    if 1 <= n <= 9 {
        ok(seq![sanyou_suji(n as int)])
    } else {
        fail(ConvertError::UnspellableNumber(n))
    }
}

/// A number 1-18 in kanji (`十` then the ones for 11-18); any other number
/// has no spelling here.
pub open spec fn kansuji_text(n: u8) -> (Seq<char>, Option<ConvertError>) {
    if n > 18 || n == 0 {
        fail(ConvertError::UnspellableNumber(n))
    } else if n > 10 {
        ok(seq!['十', kansuji(n - 10)])
    } else {
        ok(seq![kansuji(n as int)])
    }
}

/// Appends a file as a full-width digit.
pub fn write_sanyou_suji(s: &mut String, n: u8) -> (r: Result<(), ConvertError>)
    ensures
        final(s)@ == old(s)@ + sanyou_suji_text(n).0,
        r == outcome(sanyou_suji_text(n)),
{
    if 1 <= n && n <= 9 {
        push_char(s, sanyou_suji_char(n));
        Ok(())
    } else {
        assert(s@ =~= old(s)@ + sanyou_suji_text(n).0);
        Err(ConvertError::UnspellableNumber(n))
    }
}

/// Appends a number 1-18 in kanji.
pub fn write_kansuji(s: &mut String, n: u8) -> (r: Result<(), ConvertError>)
    ensures
        final(s)@ == old(s)@ + kansuji_text(n).0,
        r == outcome(kansuji_text(n)),
{
    if n > 18 || n == 0 {
        assert(s@ =~= old(s)@ + kansuji_text(n).0);
        return Err(ConvertError::UnspellableNumber(n));
    }
    if n > 10 {
        push_char(s, '十');
        push_char(s, kansuji_char(n - 10));
        assert(s@ =~= old(s)@ + kansuji_text(n).0);
    } else {
        push_char(s, kansuji_char(n));
    }
    Ok(())
}

/// A value with its line ends (`\n` and `\r`, alone or together) taken out:
/// a header is one line.
pub open spec fn one_line(v: Seq<char>) -> Seq<char>
    decreases v.len(),
{
    if v.len() == 0 {
        v
    } else if v[0] == '\n' || v[0] == '\r' {
        one_line(v.drop_first())
    } else {
        seq![v[0]] + one_line(v.drop_first())
    }
}

/// The header, one `key：value` line per entry in the record's order.
pub open spec fn spec_kakinoki_header(h: Seq<(String, String)>) -> Seq<char>
    decreases h.len(),
{
    if h.len() == 0 {
        Seq::empty()
    } else {
        spec_kakinoki_header(h.drop_last()) + h.last().0@ + "："@ + one_line(h.last().1@) + "\n"@
    }
}

proof fn lemma_one_line_step(v: Seq<char>, i: int)
    requires
        0 <= i < v.len(),
    ensures
        one_line(v.skip(i)) == if v[i] == '\n' || v[i] == '\r' {
            one_line(v.skip(i + 1))
        } else {
            seq![v[i]] + one_line(v.skip(i + 1))
        },
{
    assert(v.skip(i).drop_first() =~= v.skip(i + 1));
    assert(v.skip(i)[0] == v[i]);
}

pub(crate) fn write_one_line(s: &mut String, v: &str)
    ensures
        final(s)@ == old(s)@ + one_line(v@),
{
    let n = v.unicode_len();
    let mut i: usize = 0;
    assert(v@.skip(0) =~= v@);
    while i < n
        invariant
            n == v@.len(),
            i <= n,
            old(s)@ + one_line(v@) == s@ + one_line(v@.skip(i as int)),
        decreases n - i,
    {
        proof { lemma_one_line_step(v@, i as int); }
        let c = v.get_char(i);
        let skip = c == '\n' || c == '\r';
        if !skip {
            push_char(s, c);
            assert(old(s)@ + one_line(v@) =~= s@ + one_line(v@.skip(i + 1)));
        }
        i = i + 1;
    }
    assert(v@.skip(n as int) =~= Seq::<char>::empty());
    assert(s@ =~= old(s)@ + one_line(v@));
}

/// Appends the header lines.
pub fn write_header(s: &mut String, h: &Vec<(String, String)>)
    ensures
        final(s)@ == old(s)@ + spec_kakinoki_header(h@),
{
    let mut k: usize = 0;
    while k < h.len()
        invariant
            k <= h@.len(),
            s@ == old(s)@ + spec_kakinoki_header(h@.take(k as int)),
        decreases h@.len() - k,
    {
        s.append(h[k].0.as_str());
        s.append("：");
        write_one_line(s, h[k].1.as_str());
        s.append("\n");
        assert(h@.take(k + 1).drop_last() =~= h@.take(k as int));
        assert(s@ =~= old(s)@ + spec_kakinoki_header(h@.take(k + 1)));
        k = k + 1;
    }
    assert(h@.take(h@.len() as int) =~= h@);
}

/// One kind of a hand: its kanji, the count when above one, and a full-width
/// space; nothing when there are none.
pub open spec fn hand_part(c: char, n: u8) -> (Seq<char>, Option<ConvertError>) {
    if n == 0 {
        ok(Seq::empty())
    } else if n == 1 {
        ok(seq![c, '　'])
    } else {
        then(ok(seq![c]), then(kansuji_text(n), ok(seq!['　'])))
    }
}

/// The kinds of a hand in the order they are written, rook first and pawns
/// last, with their counts.
pub open spec fn hand_counts(h: Hand) -> Seq<(char, u8)> {
    seq![('飛', h.HI), ('角', h.KA), ('金', h.KI), ('銀', h.GI), ('桂', h.KE), ('香', h.KY), ('歩', h.FU)]
}

/// A hand, rook first and pawns last.
pub open spec fn hand_text(h: Hand) -> (Seq<char>, Option<ConvertError>) {
    then_all(hand_counts(h).map_values(|p: (char, u8)| hand_part(p.0, p.1)))
}

/// A `持駒` line's value: the hand, or `なし` when it is empty.
pub open spec fn hand_value(h: Hand) -> (Seq<char>, Option<ConvertError>) {
    if h == Hand::spec_empty() {
        ok("なし"@)
    } else {
        hand_text(h)
    }
}

/// A square of a board diagram: a space (Black) or `v` (White) and the piece,
/// or ` ・` when empty.
pub open spec fn board_cell(p: Piece) -> Seq<char> {
    match cell(p) {
        Some(cp) => seq![if cp.color == Color::Black { ' ' } else { 'v' }, spec_board_word(cp.kind)],
        None => " ・"@,
    }
}

/// The first `n` squares of a diagram row, from file 9 down.
pub open spec fn board_cells(b: [[Piece; 9]; 9], row: int, n: int) -> Seq<char>
    decreases n,
{
    if n <= 0 {
        Seq::empty()
    } else {
        board_cells(b, row, n - 1) + board_cell(b@[8 - (n - 1)]@[row])
    }
}

/// The first `n` rows of a board diagram, each closed by its rank in kanji.
pub open spec fn board_rows(b: [[Piece; 9]; 9], n: int) -> Seq<char>
    decreases n,
{
    if n <= 0 {
        Seq::empty()
    } else {
        board_rows(b, n - 1) + "|"@ + board_cells(b, n - 1, 9) + "|"@ + seq![kansuji(n)] + "\n"@
    }
}

/// The pieces of a spelled-out starting position: `手合割：その他`, White's
/// hand, the board, Black's hand, and `後手番` when White is to move.
pub open spec fn initial_data_parts(d: StateFormat) -> Seq<(Seq<char>, Option<ConvertError>)> {
    seq![
        ok("手合割：その他\n後手の持駒："@),
        hand_value(d.hands@[1]),
        ok("\n  ９ ８ ７ ６ ５ ４ ３ ２ １\n+---------------------------+\n"@ + board_rows(d.board, 9)
            + "+---------------------------+\n先手の持駒："@),
        hand_value(d.hands@[0]),
        ok("\n"@ + if d.color == Color::White { "後手番\n"@ } else { Seq::empty() }),
    ]
}

/// A spelled-out starting position (see [`initial_data_parts`]).
pub open spec fn initial_data_text(d: StateFormat) -> (Seq<char>, Option<ConvertError>) {
    then_all(initial_data_parts(d))
}

/// The `手合割` line of a preset; `その他` has no board to name.
pub open spec fn preset_line(p: Preset) -> (Seq<char>, Option<ConvertError>) {
    match spec_kif_name(p) {
        Some(name) => ok("手合割："@ + name + "\n"@),
        None => fail(ConvertError::UnknownPreset(p)),
    }
}

/// The line or board naming where the record starts; the even game when it
/// does not say.
pub open spec fn spec_kakinoki_initial(initial: Option<Initial>) -> (Seq<char>, Option<ConvertError>) {
    match initial {
        None => preset_line(Preset::PresetHirate),
        Some(i) => match i.data {
            Some(d) => initial_data_text(d),
            None => preset_line(i.preset),
        },
    }
}

fn write_hand_part(s: &mut String, c: char, n: u8) -> (r: Result<(), ConvertError>)
    ensures
        final(s)@ == old(s)@ + hand_part(c, n).0,
        r == outcome(hand_part(c, n)),
{
    if n == 0 {
        assert(s@ =~= old(s)@ + hand_part(c, n).0);
        return Ok(());
    }
    push_char(s, c);
    if n > 1 {
        let r = write_kansuji(s, n);
        if r.is_err() {
            assert(s@ =~= old(s)@ + hand_part(c, n).0);
            return r;
        }
    }
    push_char(s, '　');
    assert(s@ =~= old(s)@ + hand_part(c, n).0);
    Ok(())
}

fn write_hand(s: &mut String, h: &Hand) -> (r: Result<(), ConvertError>)
    ensures
        final(s)@ == old(s)@ + hand_text(*h).0,
        r == outcome(hand_text(*h)),
{
    let ghost ws = hand_counts(*h).map_values(|p: (char, u8)| hand_part(p.0, p.1));
    let items: [(char, u8); 7] = [('飛', h.HI), ('角', h.KA), ('金', h.KI), ('銀', h.GI), ('桂', h.KE), ('香', h.KY), ('歩', h.FU)];
    assert(items@ =~= hand_counts(*h));
    assert(ws.take(0) =~= Seq::<(Seq<char>, Option<ConvertError>)>::empty());
    let mut k: usize = 0;
    while k < 7
        invariant
            k <= 7,
            ws.len() == 7,
            items@ == hand_counts(*h),
            ws == hand_counts(*h).map_values(|p: (char, u8)| hand_part(p.0, p.1)),
            s@ == old(s)@ + then_all(ws.take(k as int)).0,
            then_all(ws.take(k as int)).1 is None,
        decreases 7 - k,
    {
        let (c, n) = items[k];
        let r = write_hand_part(s, c, n);
        proof {
            lemma_then_all_step(ws, k as int);
            assert(ws[k as int] == hand_part(c, n));
        }
        if r.is_err() {
            proof { lemma_then_all_stop(ws, k + 1); }
            return r;
        }
        k = k + 1;
    }
    proof { lemma_then_all_whole(ws); }
    Ok(())
}

fn write_hand_value(s: &mut String, h: &Hand) -> (r: Result<(), ConvertError>)
    ensures
        final(s)@ == old(s)@ + hand_value(*h).0,
        r == outcome(hand_value(*h)),
{
    if *h == Hand::empty() {
        s.append("なし");
        Ok(())
    } else {
        write_hand(s, h)
    }
}

fn write_board_cell(s: &mut String, p: Piece)
    ensures
        final(s)@ == old(s)@ + board_cell(p),
{
    match (p.color, p.kind) {
        (Some(c), Some(k)) => {
            match c {
                Color::Black => push_char(s, ' '),
                Color::White => push_char(s, 'v'),
            }
            push_char(s, board_word(k));
        },
        _ => s.append(" ・"),
    }
    assert(s@ =~= old(s)@ + board_cell(p));
}

fn write_board_rows(s: &mut String, b: &[[Piece; 9]; 9])
    ensures
        final(s)@ == old(s)@ + board_rows(*b, 9),
{
    let mut i: usize = 0;
    while i < 9
        invariant
            i <= 9,
            s@ == old(s)@ + board_rows(*b, i as int),
        decreases 9 - i,
    {
        s.append("|");
        let ghost before = s@;
        let mut j: usize = 0;
        while j < 9
            invariant
                i < 9,
                j <= 9,
                s@ == before + board_cells(*b, i as int, j as int),
            decreases 9 - j,
        {
            write_board_cell(s, b[8 - j][i]);
            assert(s@ =~= before + board_cells(*b, i as int, j + 1));
            j = j + 1;
        }
        s.append("|");
        push_char(s, kansuji_char((i + 1) as u8));
        s.append("\n");
        assert(s@ =~= old(s)@ + board_rows(*b, i + 1));
        i = i + 1;
    }
}

fn write_initial_data(s: &mut String, d: &StateFormat) -> (r: Result<(), ConvertError>)
    ensures
        final(s)@ == old(s)@ + initial_data_text(*d).0,
        r == outcome(initial_data_text(*d)),
{
    let ghost ws = initial_data_parts(*d);
    assert(ws.take(0) =~= Seq::<(Seq<char>, Option<ConvertError>)>::empty());
    s.append("手合割：その他\n後手の持駒：");
    proof { lemma_then_all_step(ws, 0); }
    let r = write_hand_value(s, &d.hands[1]);
    proof { lemma_then_all_step(ws, 1); }
    if r.is_err() {
        proof { lemma_then_all_stop(ws, 2); }
        return r;
    }
    let ghost before_board = s@;
    s.append("\n  ９ ８ ７ ６ ５ ４ ３ ２ １\n+---------------------------+\n");
    write_board_rows(s, &d.board);
    s.append("+---------------------------+\n先手の持駒：");
    proof {
        lemma_then_all_step(ws, 2);
        assert(s@ =~= old(s)@ + then_all(ws.take(3)).0);
    }
    let r = write_hand_value(s, &d.hands[0]);
    proof { lemma_then_all_step(ws, 3); }
    if r.is_err() {
        proof { lemma_then_all_stop(ws, 4); }
        return r;
    }
    let ghost before_last = s@;
    s.append("\n");
    if d.color == Color::White {
        s.append("後手番\n");
    }
    proof {
        lemma_then_all_step(ws, 4);
        assert(s@ =~= old(s)@ + then_all(ws.take(5)).0);
        lemma_then_all_whole(ws);
    }
    Ok(())
}

fn write_preset_line(s: &mut String, p: Preset) -> (r: Result<(), ConvertError>)
    ensures
        final(s)@ == old(s)@ + preset_line(p).0,
        r == outcome(preset_line(p)),
{
    match crate::handicap::lookup(p) {
        Some(h) => {
            s.append("手合割：");
            s.append(h.kif_name);
            s.append("\n");
            assert(s@ =~= old(s)@ + preset_line(p).0);
            Ok(())
        },
        None => {
            assert(s@ =~= old(s)@ + preset_line(p).0);
            Err(ConvertError::UnknownPreset(p))
        },
    }
}

/// Appends the line or board naming where the record starts.
pub fn write_initial(s: &mut String, initial: &Option<Initial>) -> (r: Result<(), ConvertError>)
    ensures
        final(s)@ == old(s)@ + spec_kakinoki_initial(*initial).0,
        r == outcome(spec_kakinoki_initial(*initial)),
{
    match initial {
        None => write_preset_line(s, Preset::PresetHirate),
        Some(i) => match &i.data {
            Some(d) => write_initial_data(s, d),
            None => write_preset_line(s, i.preset),
        },
    }
}

/// A comment line: `*` before it unless it is a bookmark (`&`).
pub open spec fn comment_line(c: Seq<char>) -> Seq<char> {
    (if seq_starts_with(c, "&"@) { Seq::empty() } else { "*"@ }) + c + "\n"@
}

/// The comment lines of a node.
pub open spec fn comments_text(c: Option<Vec<String>>) -> Seq<char> {
    match c {
        None => Seq::empty(),
        Some(v) => comment_seq(v@),
    }
}

/// [`comment_line`] for each comment.
pub open spec fn comment_seq(c: Seq<String>) -> Seq<char>
    decreases c.len(),
{
    if c.len() == 0 {
        Seq::empty()
    } else {
        comment_seq(c.drop_last()) + comment_line(c.last()@)
    }
}

/// Appends the comment lines of a node.
pub fn write_comments(s: &mut String, c: &Option<Vec<String>>)
    ensures
        final(s)@ == old(s)@ + comments_text(*c),
{
    if let Some(v) = c {
        let mut k: usize = 0;
        while k < v.len()
            invariant
                k <= v@.len(),
                s@ == old(s)@ + comment_seq(v@.take(k as int)),
            decreases v@.len() - k,
        {
            let t = v[k].as_str();
            if !crate::text::starts_with(t, "&") {
                s.append("*");
            }
            s.append(t);
            s.append("\n");
            assert(v@.take(k + 1).drop_last() =~= v@.take(k as int));
            assert(s@ =~= old(s)@ + comment_seq(v@.take(k + 1)));
            k = k + 1;
        }
        assert(v@.take(v@.len() as int) =~= v@);
    }
}

} // verus!
