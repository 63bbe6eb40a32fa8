//! The block above the moves, which KIF and KI2 write the same way: header
//! lines (`<キーワード>：<値>`), the `手合割` and the hands, comments, a board
//! diagram with header lines on either side of it, and the side to move.
//!
//! A reader here answers with where it stopped, or says the text is not its
//! shape, or that it is its shape and broken (and where the broken line
//! starts).

use vstd::prelude::*;
use crate::jkf::{Color, Hand, Initial, JsonKifuFormat, Kind, MoveFormat, Piece, Preset, StateFormat};
use vstd::view::View;
use crate::handicap::{is_entry, last_non_padding, spec_kif_name, table_preset};
use crate::text::seq_ends_with;
use crate::notation::{is_padding, spec_is_padding};
use crate::parser::kakinoki::{
    begins_the_line_below_chars, char_at, char_at_exec, eol_at, eol_exec, line_stop, line_stop_exec,
    is_line_end_char, lit_at, lit_at_exec, move_run_end, padding_end, piece_word, piece_word_exec,
    rank_numeral, rank_numeral_exec, side_mark_at, single_move, skip_padding, spec_begins_the_line_below,
    spec_opens_a_numbered_line,
    board_at, board_of_ranks, spec_board, BoardFault, BoardRefusal, LineShapes,
};

verus! {

/// What is wrong with a line a reader recognised as its own.
#[derive(Clone, Copy, Debug, PartialEq, Eq, Structural)]
pub enum LineFault {
    /// The line ran into the one below it: its newline was lost.
    RunsIntoTheLineBelow,
    /// A hand line whose value cannot be read.
    HandCannotBeRead,
    /// A board diagram that began and is broken.
    Board(BoardFault),
    /// A move line whose move cannot be read.
    MoveCannotBeRead,
    /// A `変化：` header with no moves under it.
    EmptyBranch,
    /// An outcome line whose outcome is none the format has.
    UnknownOutcome,
}

/// Why a reader did not read at a position.
#[derive(Clone, Copy, Debug, PartialEq, Eq, Structural)]
pub enum Refusal {
    /// The text there is not the reader's shape.
    NotThis,
    /// The text there is the reader's shape and broken: where the line that
    /// broke starts, and what is wrong with it.
    Broken(usize, LineFault),
}

/// Whether `r` is the refusal `e` describes (`None` for "not this shape").
pub open spec fn refusal_is(r: Refusal, e: Option<(int, LineFault)>) -> bool {
    match e {
        None => r == Refusal::NotThis,
        Some((at, f)) => r matches Refusal::Broken(a, g) && a == at && g == f,
    }
}

/// The rest of the line from `i`, up to its ending: `None` where a `\r`
/// stands without a `\n` after it.
pub open spec fn not_line_ending(s: Seq<char>, i: int) -> Option<int> {
    let k = line_stop(s, i);
    if char_at(s, k, '\r') && !char_at(s, k + 1, '\n') { None } else { Some(k) }
}

/// The rest of the line from `i` and its ending: where the line after it
/// starts.
pub open spec fn rest_of_line(s: Seq<char>, i: int) -> Option<int> {
    match not_line_ending(s, i) {
        Some(k) => eol_at(s, k),
        None => None,
    }
}

/// A `#` line at `i`, past its padding: the note, and where the line after it
/// starts.
pub open spec fn spec_comment_line(s: Seq<char>, i: int) -> Option<(Seq<char>, int)> {
    let k = padding_end(s, i);
    if !char_at(s, k, '#') {
        None
    } else {
        match not_line_ending(s, k + 1) {
            None => None,
            Some(e) => match eol_at(s, e) {
                None => None,
                Some(n) => Some((s.subrange(k + 1, e), n)),
            },
        }
    }
}

/// A comment (`*`) or bookmark (`&`) line at `i`, past its padding: the
/// comment (a bookmark keeps its `&`), and where the line after it starts.
pub open spec fn comment_text_line(s: Seq<char>, i: int) -> Option<(Seq<char>, int)> {
    let k = padding_end(s, i);
    if !(char_at(s, k, '*') || char_at(s, k, '&')) {
        None
    } else {
        match not_line_ending(s, k + 1) {
            None => None,
            Some(e) => match eol_at(s, e) {
                None => None,
                Some(n) => Some((if s[k] == '*' { s.subrange(k + 1, e) } else { seq!['&'] + s.subrange(k + 1, e) }, n)),
            },
        }
    }
}

/// The end of the line at `rest` of a line starting at `line` that a reader
/// has finished with: padding and the line's ending, or what trails off into
/// something that is not a line of its own. A line of `shapes` where the
/// newline should have been is the line running into the one below.
pub open spec fn ends_here(shapes: LineShapes, s: Seq<char>, line: int, rest: int) -> Result<int, Option<(int, LineFault)>> {
    match eol_at(s, padding_end(s, rest)) {
        Some(e) => Ok(e),
        None => if spec_begins_the_line_below(shapes, s.subrange(rest, s.len() as int)) {
            Err(Some((line, LineFault::RunsIntoTheLineBelow)))
        } else {
            match rest_of_line(s, rest) {
                Some(e) => Ok(e),
                None => Err(None),
            }
        },
    }
}

/// The side a `先手番` / `後手番` (or `下手番` / `上手番`) word at `p` names.
pub open spec fn side_word_at(s: Seq<char>, p: int) -> Option<Color> {
    if char_at(s, p + 1, '手') && char_at(s, p + 2, '番') {
        if char_at(s, p, '先') || char_at(s, p, '下') {
            Some(Color::Black)
        } else if char_at(s, p, '後') || char_at(s, p, '上') {
            Some(Color::White)
        } else {
            None
        }
    } else {
        None
    }
}

/// The side-to-move line at `i`, if there is one: the word owns the rest of
/// its line. A word whose line runs into the one below is broken; any other
/// line is left where it is.
pub open spec fn side_to_move_line(shapes: LineShapes, s: Seq<char>, i: int) -> Result<(Option<Color>, int), (int, LineFault)> {
    let p = padding_end(s, i);
    match side_word_at(s, p) {
        None => Ok((None, i)),
        Some(c) => match ends_here(shapes, s, i, p + 3) {
            Ok(e) => Ok((Some(c), e)),
            Err(None) => Ok((None, i)),
            Err(Some(b)) => Err(b),
        },
    }
}

pub(crate) fn not_line_ending_exec(s: &Vec<char>, i: usize) -> (r: Option<usize>)
    requires
        i <= s@.len(),
    ensures
        match r {
            Some(k) => not_line_ending(s@, i as int) == Some(k as int) && i <= k <= s@.len(),
            None => not_line_ending(s@, i as int) is None,
        },
{
    let k = line_stop_exec(s, i);
    if char_at_exec(s, k, '\r') && !char_at_exec(s, k + 1, '\n') { None } else { Some(k) }
}

pub(crate) fn rest_of_line_exec(s: &Vec<char>, i: usize) -> (r: Option<usize>)
    requires
        i <= s@.len(),
    ensures
        match r {
            Some(e) => rest_of_line(s@, i as int) == Some(e as int) && e <= s@.len(),
            None => rest_of_line(s@, i as int) is None,
        },
{
    match not_line_ending_exec(s, i) {
        Some(k) => {
            let r = eol_exec(s, k);
            proof {
                if r is Some {
                    crate::parser::kakinoki::lemma_eol_within(s@, k as int);
                }
            }
            r
        },
        None => None,
    }
}

fn text_of(s: &Vec<char>, from: usize, to: usize) -> (t: String)
    requires
        from <= to <= s@.len(),
    ensures
        t@ == s@.subrange(from as int, to as int),
{
    let mut t = String::new();
    let mut i = from;
    while i < to
        invariant
            from <= i <= to <= s@.len(),
            t@ == s@.subrange(from as int, i as int),
        decreases to - i,
    {
        crate::text::push_char(&mut t, s[i]);
        i = i + 1;
        assert(t@ =~= s@.subrange(from as int, i as int));
    }
    t
}

pub(crate) fn comment_line_exec(s: &Vec<char>, i: usize) -> (r: Option<(String, usize)>)
    requires
        i <= s@.len(),
    ensures
        match r {
            Some((t, n)) => spec_comment_line(s@, i as int) == Some((t@, n as int)) && i < n <= s@.len(),
            None => spec_comment_line(s@, i as int) is None,
        },
{
    let k = skip_padding(s, i);
    if !char_at_exec(s, k, '#') {
        return None;
    }
    let e = match not_line_ending_exec(s, k + 1) {
        None => return None,
        Some(e) => e,
    };
    match eol_exec(s, e) {
        None => None,
        Some(n) => {
            proof { crate::parser::kakinoki::lemma_eol_within(s@, e as int); }
            Some((text_of(s, k + 1, e), n))
        },
    }
}

pub(crate) fn comment_text_line_exec(s: &Vec<char>, i: usize) -> (r: Option<(String, usize)>)
    requires
        i <= s@.len(),
    ensures
        match r {
            Some((t, n)) => comment_text_line(s@, i as int) == Some((t@, n as int)) && i < n <= s@.len(),
            None => comment_text_line(s@, i as int) is None,
        },
{
    let k = skip_padding(s, i);
    if !(char_at_exec(s, k, '*') || char_at_exec(s, k, '&')) {
        return None;
    }
    let e = match not_line_ending_exec(s, k + 1) {
        None => return None,
        Some(e) => e,
    };
    match eol_exec(s, e) {
        None => None,
        Some(n) => {
            proof { crate::parser::kakinoki::lemma_eol_within(s@, e as int); }
            let body = text_of(s, k + 1, e);
            if s[k] == '*' {
                Some((body, n))
            } else {
                let mut t = String::new();
                crate::text::push_char(&mut t, '&');
                t.append(body.as_str());
                assert(t@ =~= seq!['&'] + s@.subrange(k + 1, e as int));
                Some((t, n))
            }
        },
    }
}

fn tail_of(s: &Vec<char>, from: usize) -> (t: Vec<char>)
    requires
        from <= s@.len(),
    ensures
        t@ == s@.subrange(from as int, s@.len() as int),
{
    let mut t: Vec<char> = Vec::new();
    let mut i = from;
    while i < s.len()
        invariant
            from <= i <= s@.len(),
            t@ == s@.subrange(from as int, i as int),
        decreases s@.len() - i,
    {
        t.push(s[i]);
        i = i + 1;
        assert(t@ =~= s@.subrange(from as int, i as int));
    }
    t
}

pub(crate) fn ends_here_exec(shapes: LineShapes, s: &Vec<char>, line: usize, rest: usize) -> (r: Result<usize, Refusal>)
    requires
        rest <= s@.len(),
    ensures
        match ends_here(shapes, s@, line as int, rest as int) {
            Ok(e) => r matches Ok(f) && f == e && e <= s@.len(),
            Err(x) => r matches Err(y) && refusal_is(y, x),
        },
{
    let p = skip_padding(s, rest);
    match eol_exec(s, p) {
        Some(e) => {
            proof { crate::parser::kakinoki::lemma_eol_within(s@, p as int); }
            return Ok(e);
        },
        None => {},
    }
    let tail = tail_of(s, rest);
    if begins_the_line_below_chars(shapes, &tail) {
        return Err(Refusal::Broken(line, LineFault::RunsIntoTheLineBelow));
    }
    match rest_of_line_exec(s, rest) {
        Some(e) => Ok(e),
        None => Err(Refusal::NotThis),
    }
}

fn side_word_exec(s: &Vec<char>, p: usize) -> (r: Option<Color>)
    requires
        p <= s@.len(),
    ensures
        r == side_word_at(s@, p as int),
        s@.len() <= usize::MAX,
{
    let _ = s.len();
    if p < s.len() && char_at_exec(s, p + 1, '手') && char_at_exec(s, p + 2, '番') {
        if char_at_exec(s, p, '先') || char_at_exec(s, p, '下') {
            Some(Color::Black)
        } else if char_at_exec(s, p, '後') || char_at_exec(s, p, '上') {
            Some(Color::White)
        } else {
            None
        }
    } else {
        None
    }
}

pub(crate) fn side_to_move_line_exec(shapes: LineShapes, s: &Vec<char>, i: usize) -> (r: Result<(Option<Color>, usize), Refusal>)
    requires
        i <= s@.len(),
    ensures
        match side_to_move_line(shapes, s@, i as int) {
            Ok((c, e)) => r matches Ok((d, f)) && d == c && f == e && e <= s@.len(),
            Err((at, fault)) => r matches Err(Refusal::Broken(a, g)) && a == at && g == fault,
        },
{
    let p = skip_padding(s, i);
    match side_word_exec(s, p) {
        None => Ok((None, i)),
        Some(c) => {
            match ends_here_exec(shapes, s, i, p + 3) {
                Ok(e) => Ok((Some(c), e)),
                Err(Refusal::NotThis) => Ok((None, i)),
                Err(b) => Err(b),
            }
        },
    }
}


/// Whether `：` or `:` stands at `i`.
pub open spec fn colon_at(s: Seq<char>, i: int) -> bool {
    char_at(s, i, '：') || char_at(s, i, ':')
}

/// The handicap named at `p`, trying the table from row `k` on, then `その他`.
/// No name is a prefix of another, so the order they are tried in does not
/// decide.
pub open spec fn preset_named_from(s: Seq<char>, p: int, k: int) -> Option<(Preset, int)>
    decreases 16 - k,
{
    if k < 0 || k >= 16 {
        if lit_at(s, p, "その他"@) { Some((Preset::PresetOther, p + 3)) } else { None }
    } else {
        let name = spec_kif_name(table_preset(k)).unwrap();
        if lit_at(s, p, name) { Some((table_preset(k), p + name.len())) } else { preset_named_from(s, p, k + 1) }
    }
}

/// A `手合割：<名前>` line at `i`: padding, `手合割`, padding, a colon, the
/// name with padding on either side, and the end of the line.
pub open spec fn spec_information_line_preset(s: Seq<char>, i: int) -> Option<(Preset, int)> {
    let p = padding_end(s, i);
    let q = padding_end(s, p + 3);
    if !(lit_at(s, p, "手合割"@) && colon_at(s, q)) {
        None
    } else {
        match preset_named_from(s, padding_end(s, q + 1), 0) {
            None => None,
            Some((preset, e)) => match eol_at(s, padding_end(s, e)) {
                None => None,
                Some(n) => Some((preset, n)),
            },
        }
    }
}

/// A count in kanji at `i`: `一` to `十八`.
pub open spec fn kansuji_at(s: Seq<char>, i: int) -> Option<(int, int)> {
    if char_at(s, i, '十') {
        if i + 1 < s.len() && rank_numeral(s[i + 1]) is Some && rank_numeral(s[i + 1]).unwrap() <= 8 {
            Some((10 + rank_numeral(s[i + 1]).unwrap(), i + 2))
        } else {
            Some((10, i + 1))
        }
    } else if 0 <= i < s.len() && rank_numeral(s[i]) is Some {
        Some((rank_numeral(s[i]).unwrap() as int, i + 1))
    } else {
        None
    }
}

/// One entry of a hand at `i`: a piece, its count (one when none is written)
/// and the padding after it.
pub open spec fn hand_entry(s: Seq<char>, i: int) -> Option<(Kind, int, int)> {
    match piece_word(s, i) {
        None => None,
        Some((k, j)) => match kansuji_at(s, j) {
            Some((n, j2)) => Some((k, n, padding_end(s, j2))),
            None => Some((k, 1, padding_end(s, j))),
        },
    }
}

/// The entries of a hand from `i`, and where they end.
pub open spec fn hand_entries(s: Seq<char>, i: int) -> (Seq<(Kind, int)>, int)
    decreases s.len() - i,
{
    match hand_entry(s, i) {
        None => (Seq::empty(), i),
        Some((k, n, e)) => if i < e <= s.len() {
            let (rest, end) = hand_entries(s, e);
            (seq![(k, n)] + rest, end)
        } else {
            (seq![(k, n)], e)
        },
    }
}

/// `h` with the entries added: `None` for a piece a hand cannot hold or a
/// count past what a `u8` holds.
pub open spec fn add_entries(h: Hand, es: Seq<(Kind, int)>) -> Option<Hand>
    decreases es.len(),
{
    if es.len() == 0 {
        Some(h)
    } else {
        let (k, n) = es[0];
        match h.spec_slot(k) {
            None => None,
            Some(c) => if c + n > 255 { None } else { add_entries(h.spec_with(k, (c + n) as u8), es.drop_first()) },
        }
    }
}

/// The value of a hand line at `i`, past its padding: `なし`, or pieces with
/// their counts, or nothing at all before the end of the line; each with the
/// padding after it.
pub open spec fn spec_hand_value(s: Seq<char>, i: int) -> Option<(Hand, int)> {
    let p = padding_end(s, i);
    let (es, e) = hand_entries(s, p);
    if char_at(s, p, 'な') && char_at(s, p + 1, 'し') {
        Some((Hand::spec_empty(), padding_end(s, p + 2)))
    } else if es.len() > 0 && add_entries(Hand::spec_empty(), es) is Some {
        Some((add_entries(Hand::spec_empty(), es).unwrap(), e))
    } else if eol_at(s, p) is Some {
        Some((Hand::spec_empty(), p))
    } else {
        None
    }
}

/// Whose hand a `<先手|後手|下手|上手>の持駒：` prefix at `i` names, and where
/// its value starts.
pub open spec fn hands_prefix(s: Seq<char>, i: int) -> Option<(Color, int)> {
    let p = padding_end(s, i);
    let q = padding_end(s, p + 5);
    let side = if char_at(s, p + 1, '手') {
        if char_at(s, p, '先') || char_at(s, p, '下') { Some(Color::Black) }
        else if char_at(s, p, '後') || char_at(s, p, '上') { Some(Color::White) }
        else { None }
    } else {
        None
    };
    if side is Some && lit_at(s, p + 2, "の持駒"@) && colon_at(s, q) {
        Some((side.unwrap(), q + 1))
    } else {
        None
    }
}

/// A hand line at `i`. Past its prefix the line states a hand whatever
/// follows, so a value that cannot be read is a broken line.
pub open spec fn spec_information_line_hands(s: Seq<char>, i: int) -> Result<(Color, Hand, int), Option<(int, LineFault)>> {
    match hands_prefix(s, i) {
        None => Err(None),
        Some((c, v)) => match spec_hand_value(s, v) {
            None => Err(Some((i, LineFault::HandCannotBeRead))),
            Some((h, e)) => match eol_at(s, e) {
                None => Err(Some((i, LineFault::HandCannotBeRead))),
                Some(n) => Ok((c, h, n)),
            },
        },
    }
}

fn colon_exec(s: &Vec<char>, i: usize) -> (b: bool)
    ensures
        b == colon_at(s@, i as int),
{
    char_at_exec(s, i, '：') || char_at_exec(s, i, ':')
}

fn preset_named_exec(s: &Vec<char>, p: usize) -> (r: Option<(Preset, usize)>)
    requires
        p <= s@.len(),
    ensures
        match r {
            Some((preset, e)) => preset_named_from(s@, p as int, 0) == Some((preset, e as int)) && e <= s@.len(),
            None => preset_named_from(s@, p as int, 0) is None,
        },
{
    let table = crate::handicap::handicaps();
    let mut k: usize = 0;
    while k < table.len()
        invariant
            table@.len() == 16,
            forall|j: int| 0 <= j < 16 ==> #[trigger] table@[j].preset == table_preset(j) && is_entry(table@[j]),
            k <= 16,
            p <= s@.len(),
            preset_named_from(s@, p as int, 0) == preset_named_from(s@, p as int, k as int),
        decreases 16 - k,
    {
        let h = &table[k];
        if lit_at_exec(s, p, h.kif_name) {
            return Some((h.preset, p + h.kif_name.unicode_len()));
        }
        k = k + 1;
    }
    if lit_at_exec(s, p, crate::handicap::OTHER_NAME) {
        proof { reveal_strlit("その他"); }
        Some((Preset::PresetOther, p + 3))
    } else {
        None
    }
}

pub(crate) fn information_line_preset_exec(s: &Vec<char>, i: usize) -> (r: Option<(Preset, usize)>)
    requires
        i <= s@.len(),
    ensures
        match r {
            Some((preset, n)) => spec_information_line_preset(s@, i as int) == Some((preset, n as int)) && n <= s@.len(),
            None => spec_information_line_preset(s@, i as int) is None,
        },
{
    let p = skip_padding(s, i);
    if !lit_at_exec(s, p, crate::handicap::KIF_KEYWORD) {
        return None;
    }
    proof { reveal_strlit("手合割"); }
    let q = skip_padding(s, p + 3);
    if !colon_exec(s, q) {
        return None;
    }
    let v = skip_padding(s, q + 1);
    let (preset, e) = match preset_named_exec(s, v) {
        None => return None,
        Some(x) => x,
    };
    let f = skip_padding(s, e);
    match eol_exec(s, f) {
        None => None,
        Some(n) => {
            proof { crate::parser::kakinoki::lemma_eol_within(s@, f as int); }
            Some((preset, n))
        },
    }
}

fn kansuji_exec(s: &Vec<char>, i: usize) -> (r: Option<(u8, usize)>)
    requires
        i <= s@.len(),
    ensures
        match r {
            Some((n, j)) => kansuji_at(s@, i as int) == Some((n as int, j as int)) && j <= s@.len() && 1 <= n <= 18,
            None => kansuji_at(s@, i as int) is None,
        },
{
    if char_at_exec(s, i, '十') {
        if i + 1 < s.len() {
            match rank_numeral_exec(s[i + 1]) {
                Some(d) => {
                    if d <= 8 {
                        return Some((10 + d, i + 2));
                    }
                },
                None => {},
            }
        }
        Some((10, i + 1))
    } else if i < s.len() {
        match rank_numeral_exec(s[i]) {
            Some(d) => Some((d, i + 1)),
            None => None,
        }
    } else {
        None
    }
}

fn hand_entry_exec(s: &Vec<char>, i: usize) -> (r: Option<(Kind, u8, usize)>)
    requires
        i <= s@.len(),
    ensures
        match r {
            Some((k, n, e)) => hand_entry(s@, i as int) == Some((k, n as int, e as int)) && e <= s@.len(),
            None => hand_entry(s@, i as int) is None,
        },
{
    let (k, j) = match piece_word_exec(s, i) {
        None => return None,
        Some(x) => x,
    };
    match kansuji_exec(s, j) {
        Some((n, j2)) => Some((k, n, skip_padding(s, j2))),
        None => Some((k, 1, skip_padding(s, j))),
    }
}

proof fn lemma_add_entries_split(h: Hand, a: Seq<(Kind, int)>, b: Seq<(Kind, int)>)
    ensures
        add_entries(h, a + b) == (match add_entries(h, a) {
            None => None,
            Some(h2) => add_entries(h2, b),
        }),
    decreases a.len(),
{
    if a.len() > 0 {
        assert((a + b).drop_first() =~= a.drop_first() + b);
        assert((a + b)[0] == a[0]);
        let (k, n) = a[0];
        match h.spec_slot(k) {
            None => {},
            Some(c) => if c + n <= 255 {
                lemma_add_entries_split(h.spec_with(k, (c + n) as u8), a.drop_first(), b);
            },
        }
    } else {
        assert(a + b =~= b);
    }
}

/// The entries of a hand from `i` added to an empty hand, and where they end;
/// the hand is `None` when they cannot be added.
fn hand_entries_exec(s: &Vec<char>, i: usize) -> (r: (Option<Hand>, usize, bool))
    requires
        i <= s@.len(),
    ensures
        r.1 == hand_entries(s@, i as int).1,
        r.2 == (hand_entries(s@, i as int).0.len() > 0),
        r.0 == add_entries(Hand::spec_empty(), hand_entries(s@, i as int).0),
        r.1 <= s@.len(),
{
    let ghost mut done: Seq<(Kind, int)> = Seq::empty();
    let mut acc: Option<Hand> = Some(Hand::empty());
    let mut j = i;
    let mut any = false;
    loop
        invariant
            i <= j <= s@.len(),
            hand_entries(s@, i as int) == ({
                let (rest, end) = hand_entries(s@, j as int);
                (done + rest, end)
            }),
            acc == add_entries(Hand::spec_empty(), done),
            any == (done.len() > 0),
        decreases s@.len() - j,
    {
        match hand_entry_exec(s, j) {
            None => {
                assert(done + Seq::<(Kind, int)>::empty() =~= done);
                return (acc, j, any);
            },
            Some((k, n, e)) => {
                proof {
                    lemma_add_entries_split(Hand::spec_empty(), done, seq![(k, n as int)]);
                    if !(j < e) {
                        assert(done + seq![(k, n as int)] =~= done.push((k, n as int)));
                    } else {
                        let (rest, end) = hand_entries(s@, e as int);
                        assert(done + (seq![(k, n as int)] + rest) =~= (done + seq![(k, n as int)]) + rest);
                    }
                }
                let ghost before = acc;
                acc = match acc {
                    None => None,
                    Some(h) => match h.slot(k) {
                        None => None,
                        Some(c) => if c as u16 + n as u16 > 255 {
                            None
                        } else {
                            let mut h2 = h;
                            h2.set_slot(k, c + n);
                            Some(h2)
                        },
                    },
                };
                proof {
                    let one = seq![(k, n as int)];
                    assert(one[0] == (k, n as int));
                    assert(one.drop_first() =~= Seq::<(Kind, int)>::empty());
                    match before {
                        None => {},
                        Some(h) => {
                            reveal_with_fuel(add_entries, 2);
                            assert(add_entries(h, one) == acc);
                        },
                    }
                    assert(acc == add_entries(Hand::spec_empty(), done + one));
                }
                proof {
                    done = done + seq![(k, n as int)];
                }
                any = true;
                if !(j < e) {
                    return (acc, e, any);
                }
                j = e;
            },
        }
    }
}

fn hand_value_exec(s: &Vec<char>, i: usize) -> (r: Option<(Hand, usize)>)
    requires
        i <= s@.len(),
    ensures
        match r {
            Some((h, e)) => spec_hand_value(s@, i as int) == Some((h, e as int)) && e <= s@.len(),
            None => spec_hand_value(s@, i as int) is None,
        },
{
    let p = skip_padding(s, i);
    let (acc, e, any) = hand_entries_exec(s, p);
    if char_at_exec(s, p, 'な') && char_at_exec(s, p + 1, 'し') {
        Some((Hand::empty(), skip_padding(s, p + 2)))
    } else if any && acc.is_some() {
        Some((acc.unwrap(), e))
    } else if eol_exec(s, p).is_some() {
        Some((Hand::empty(), p))
    } else {
        None
    }
}

fn hands_prefix_exec(s: &Vec<char>, i: usize) -> (r: Option<(Color, usize)>)
    requires
        i <= s@.len(),
    ensures
        match r {
            Some((c, v)) => hands_prefix(s@, i as int) == Some((c, v as int)) && v <= s@.len(),
            None => hands_prefix(s@, i as int) is None,
        },
{
    let p = skip_padding(s, i);
    if p >= s.len() {
        return None;
    }
    let side = if char_at_exec(s, p + 1, '手') {
        if char_at_exec(s, p, '先') || char_at_exec(s, p, '下') { Some(Color::Black) }
        else if char_at_exec(s, p, '後') || char_at_exec(s, p, '上') { Some(Color::White) }
        else { None }
    } else {
        None
    };
    let c = match side {
        None => return None,
        Some(c) => c,
    };
    if !lit_at_exec(s, p + 2, "の持駒") {
        return None;
    }
    proof { reveal_strlit("の持駒"); }
    let q = skip_padding(s, p + 5);
    if colon_exec(s, q) { Some((c, q + 1)) } else { None }
}

pub(crate) fn information_line_hands_exec(s: &Vec<char>, i: usize) -> (r: Result<(Color, Hand, usize), Refusal>)
    requires
        i <= s@.len(),
    ensures
        match spec_information_line_hands(s@, i as int) {
            Ok((c, h, n)) => r matches Ok((d, g, m)) && d == c && g == h && m == n && n <= s@.len(),
            Err(x) => r matches Err(y) && refusal_is(y, x),
        },
{
    let (c, v) = match hands_prefix_exec(s, i) {
        None => return Err(Refusal::NotThis),
        Some(x) => x,
    };
    let (h, e) = match hand_value_exec(s, v) {
        None => return Err(Refusal::Broken(i, LineFault::HandCannotBeRead)),
        Some(x) => x,
    };
    match eol_exec(s, e) {
        None => Err(Refusal::Broken(i, LineFault::HandCannotBeRead)),
        Some(n) => {
            proof { crate::parser::kakinoki::lemma_eol_within(s@, e as int); }
            Ok((c, h, n))
        },
    }
}

/// Where a key that starts at `p` stops: at the first `：` (and, unless
/// `full_only`, the first `:`) or the end of the line.
pub open spec fn key_stop(s: Seq<char>, p: int, full_only: bool) -> int
    decreases s.len() - p,
{
    if 0 <= p < s.len() && !is_line_end_char(s[p]) && s[p] != '：' && (full_only || s[p] != ':') {
        key_stop(s, p + 1, full_only)
    } else {
        p
    }
}

/// `t` without the padding at its end.
pub open spec fn trim_end_padding(t: Seq<char>) -> Seq<char> {
    t.subrange(0, last_non_padding(t))
}

/// The last side mark before `n`, or -1.
pub open spec fn last_mark_before(v: Seq<char>, n: int) -> int
    decreases n,
{
    if n <= 0 || n > v.len() {
        -1
    } else if side_mark_at(v, n - 1) {
        n - 1
    } else {
        last_mark_before(v, n - 1)
    }
}

/// Whether a header value carries a run of KI2 moves that runs to its end:
/// two moves at least, the last of them at its last mark. That is what a
/// header that swallowed the line of moves under it looks like.
pub open spec fn spec_carries_moves(v: Seq<char>) -> bool {
    let i = last_mark_before(v, last_mark_before(v, v.len() as int));
    &&& i >= 0
    &&& single_move(v, i) matches Some(j) && single_move(v, j) is Some
    &&& move_run_end(v, i) matches Some(e) && padding_end(v, e) == v.len()
}

/// Whether a header value carries a line of `shapes`: KIF's move lines
/// cannot be told from a value (`棋戦：第 3 回`), so only KI2 asks.
pub open spec fn carries_a_line(shapes: LineShapes, v: Seq<char>) -> bool {
    match shapes {
        LineShapes::Kif => false,
        LineShapes::Ki2 => spec_carries_moves(v),
    }
}

/// A `<キーワード>：<値>` line at `i`: the key (its padding trimmed), the
/// value, and where the line after it starts. A full-width colon splits the
/// line first; a half-width one only where the key names the line
/// (`手合割`, `…の持駒`). A comment or bookmark line is not one; a value that
/// carries a line of `shapes` is the line below, swallowed.
pub open spec fn spec_keyvalue(shapes: LineShapes, s: Seq<char>, i: int) -> Result<(Seq<char>, Seq<char>, int), Option<(int, LineFault)>> {
    let p = padding_end(s, i);
    let k1 = key_stop(s, p, true);
    let k2 = key_stop(s, p, false);
    let full = k1 > p && char_at(s, k1, '：');
    let ke = if full { k1 } else { k2 };
    if char_at(s, p, '*') || char_at(s, p, '&') {
        Err(None)
    } else if !full && !(k2 > p && colon_at(s, k2)) {
        Err(None)
    } else {
        let key = trim_end_padding(s.subrange(p, ke));
        if !full && char_at(s, k2, ':') && !(key == "手合割"@ || seq_ends_with(key, "の持駒"@)) {
            Err(None)
        } else {
            match not_line_ending(s, ke + 1) {
                None => Err(None),
                Some(ve) => match eol_at(s, ve) {
                    None => Err(None),
                    Some(n) => {
                        let value = s.subrange(ke + 1, ve);
                        if carries_a_line(shapes, value) {
                            Err(Some((i, LineFault::RunsIntoTheLineBelow)))
                        } else {
                            Ok((key, value, n))
                        }
                    },
                },
            }
        }
    }
}

fn key_stop_exec(s: &Vec<char>, p: usize, full_only: bool) -> (k: usize)
    requires
        p <= s@.len(),
    ensures
        k == key_stop(s@, p as int, full_only),
        p <= k <= s@.len(),
{
    let mut k = p;
    while k < s.len() && !(s[k] == '\n' || s[k] == '\r') && s[k] != '：' && (full_only || s[k] != ':')
        invariant
            p <= k <= s@.len(),
            key_stop(s@, p as int, full_only) == key_stop(s@, k as int, full_only),
        decreases s@.len() - k,
    {
        k = k + 1;
    }
    k
}

fn trimmed_key(s: &Vec<char>, p: usize, ke: usize) -> (key: String)
    requires
        p <= ke <= s@.len(),
    ensures
        key@ == trim_end_padding(s@.subrange(p as int, ke as int)),
{
    let mut e = ke;
    while e > p && is_padding(s[e - 1])
        invariant
            p <= e <= ke <= s@.len(),
            forall|i: int| e <= i < ke ==> spec_is_padding(#[trigger] s@[i]),
        decreases e - p,
    {
        e = e - 1;
    }
    proof {
        let t = s@.subrange(p as int, ke as int);
        assert forall|i: int| e - p <= i < t.len() implies spec_is_padding(#[trigger] t[i]) by {
            assert(t[i] == s@[p + i]);
        }
        crate::handicap::lemma_last_unique(t, e - p);
        assert(t.subrange(0, e - p) =~= s@.subrange(p as int, e as int));
    }
    text_of(s, p, e)
}

fn last_mark_before_exec(v: &Vec<char>, n: usize) -> (m: Option<usize>)
    requires
        n <= v@.len(),
    ensures
        match m {
            Some(i) => last_mark_before(v@, n as int) == i as int && i < n,
            None => last_mark_before(v@, n as int) == -1,
        },
{
    let mut k = n;
    while k > 0
        invariant
            k <= n <= v@.len(),
            last_mark_before(v@, n as int) == last_mark_before(v@, k as int),
        decreases k,
    {
        if v[k - 1] == '▲' || v[k - 1] == '△' {
            return Some(k - 1);
        }
        k = k - 1;
    }
    None
}

fn carries_moves_exec(v: &Vec<char>) -> (b: bool)
    ensures
        b == spec_carries_moves(v@),
{
    let last = match last_mark_before_exec(v, v.len()) {
        None => {
            return false;
        },
        Some(x) => x,
    };
    let i = match last_mark_before_exec(v, last) {
        None => return false,
        Some(x) => x,
    };
    let j = match crate::parser::kakinoki::single_move_exec(v, i) {
        None => return false,
        Some(j) => j,
    };
    if crate::parser::kakinoki::single_move_exec(v, j).is_none() {
        return false;
    }
    match crate::parser::kakinoki::move_run_end_exec(v, i) {
        None => false,
        Some(e) => {
            if e > v.len() {
                return false;
            }
            skip_padding(v, e) == v.len()
        },
    }
}

fn keyvalue_exec(shapes: LineShapes, s: &Vec<char>, i: usize) -> (r: Result<(String, String, usize), Refusal>)
    requires
        i <= s@.len(),
    ensures
        match spec_keyvalue(shapes, s@, i as int) {
            Ok((k, v, n)) => r matches Ok((a, b, m)) && a@ == k && b@ == v && m == n && n <= s@.len(),
            Err(x) => r matches Err(y) && refusal_is(y, x),
        },
{
    let p = skip_padding(s, i);
    let k1 = key_stop_exec(s, p, true);
    let k2 = key_stop_exec(s, p, false);
    let full = k1 > p && char_at_exec(s, k1, '：');
    let ke = if full { k1 } else { k2 };
    if char_at_exec(s, p, '*') || char_at_exec(s, p, '&') {
        return Err(Refusal::NotThis);
    }
    if !full && !(k2 > p && colon_exec(s, k2)) {
        return Err(Refusal::NotThis);
    }
    let key = trimmed_key(s, p, ke);
    if !full && char_at_exec(s, k2, ':') {
        proof { reveal_strlit("手合割"); reveal_strlit("の持駒"); }
        if !(crate::text::str_eq(key.as_str(), "手合割") || crate::text::ends_with(key.as_str(), "の持駒")) {
            return Err(Refusal::NotThis);
        }
    }
    let ve = match not_line_ending_exec(s, ke + 1) {
        None => return Err(Refusal::NotThis),
        Some(ve) => ve,
    };
    let n = match eol_exec(s, ve) {
        None => return Err(Refusal::NotThis),
        Some(n) => n,
    };
    proof { crate::parser::kakinoki::lemma_eol_within(s@, ve as int); }
    let value_chars = {
        let mut t: Vec<char> = Vec::new();
        let mut j = ke + 1;
        while j < ve
            invariant
                ke + 1 <= j <= ve <= s@.len(),
                t@ == s@.subrange(ke + 1, j as int),
            decreases ve - j,
        {
            t.push(s[j]);
            j = j + 1;
            assert(t@ =~= s@.subrange(ke + 1, j as int));
        }
        t
    };
    let carries = match shapes {
        LineShapes::Kif => false,
        LineShapes::Ki2 => carries_moves_exec(&value_chars),
    };
    if carries {
        return Err(Refusal::Broken(i, LineFault::RunsIntoTheLineBelow));
    }
    Ok((key, text_of(s, ke + 1, ve), n))
}

/// One line of the header block, as its parts.
pub enum InfoItem {
    /// A `手合割` line the table names.
    Preset(Preset),
    /// Black's hand.
    HandBlack(Hand),
    /// White's hand.
    HandWhite(Hand),
    /// Any other `<キーワード>：<値>` line.
    KeyValue(Seq<char>, Seq<char>),
    /// A comment or bookmark standing among the header lines.
    Comment(Seq<char>),
}

/// One line of the header block.
#[derive(Debug, PartialEq, Eq)]
pub enum Information {
    /// A `手合割` line the table names.
    Preset(Preset),
    /// Black's hand.
    HandBlack(Hand),
    /// White's hand.
    HandWhite(Hand),
    /// Any other `<キーワード>：<値>` line.
    KeyValue(String, String),
    /// A comment or bookmark standing among the header lines.
    Comment(String),
}

impl View for Information {
    type V = InfoItem;

    open spec fn view(&self) -> InfoItem {
        match self {
            Information::Preset(p) => InfoItem::Preset(*p),
            Information::HandBlack(h) => InfoItem::HandBlack(*h),
            Information::HandWhite(h) => InfoItem::HandWhite(*h),
            Information::KeyValue(k, v) => InfoItem::KeyValue(k@, v@),
            Information::Comment(c) => InfoItem::Comment(c@),
        }
    }
}

/// What the header block says, as its parts: the handicap named, the hands,
/// the header entries (one per key, in the order the keys first came), and
/// the comments in the order they were written.
pub struct InfoView {
    /// 手合割
    pub preset: Option<Preset>,
    /// Black's hand then White's.
    pub hands: Seq<Hand>,
    /// The header entries.
    pub map: Seq<(Seq<char>, Seq<char>)>,
    /// The comments.
    pub comments: Seq<Seq<char>>,
}

/// What the header block says.
#[derive(Debug, PartialEq, Eq)]
pub struct InformationData {
    /// 手合割
    pub preset: Option<Preset>,
    /// Black's hand then White's.
    pub hands: [Hand; 2],
    /// The header entries, one per key, in the order the keys first came.
    pub map: Vec<(String, String)>,
    /// The comments, in the order they were written.
    pub comments: Vec<String>,
}

impl View for InformationData {
    type V = InfoView;

    open spec fn view(&self) -> InfoView {
        InfoView {
            preset: self.preset,
            hands: self.hands@,
            map: self.map@.map_values(|e: (String, String)| (e.0@, e.1@)),
            comments: self.comments@.map_values(|c: String| c@),
        }
    }
}

/// A header block that says nothing.
pub open spec fn empty_info() -> InfoView {
    InfoView { preset: None, hands: seq![Hand::spec_empty(), Hand::spec_empty()], map: Seq::empty(), comments: Seq::empty() }
}

/// The last index of `m` before `n` whose key is `k`, or -1.
pub open spec fn key_index(m: Seq<(Seq<char>, Seq<char>)>, k: Seq<char>, n: int) -> int
    decreases n,
{
    if n <= 0 || n > m.len() {
        -1
    } else if m[n - 1].0 == k {
        n - 1
    } else {
        key_index(m, k, n - 1)
    }
}

/// `m` with `k` mapped to `v`: the entry for `k` replaced where there is one,
/// else a new entry at the end.
pub open spec fn map_insert(m: Seq<(Seq<char>, Seq<char>)>, k: Seq<char>, v: Seq<char>) -> Seq<(Seq<char>, Seq<char>)> {
    let i = key_index(m, k, m.len() as int);
    if i >= 0 { m.update(i, (k, v)) } else { m.push((k, v)) }
}

/// `acc` with one more line of the block: a later `手合割` or hand line
/// replaces an earlier one.
pub open spec fn apply_info(acc: InfoView, item: InfoItem) -> InfoView {
    match item {
        InfoItem::Preset(p) => InfoView { preset: Some(p), ..acc },
        InfoItem::HandBlack(h) => InfoView { hands: acc.hands.update(0, h), ..acc },
        InfoItem::HandWhite(h) => InfoView { hands: acc.hands.update(1, h), ..acc },
        InfoItem::KeyValue(k, v) => InfoView { map: map_insert(acc.map, k, v), ..acc },
        InfoItem::Comment(c) => InfoView { comments: acc.comments.push(c), ..acc },
    }
}

/// Where the `#` lines from `i` end.
pub open spec fn comment_lines_end(s: Seq<char>, i: int) -> int
    decreases s.len() - i,
{
    match spec_comment_line(s, i) {
        Some((_, n)) => if i < n <= s.len() { comment_lines_end(s, n) } else { n },
        None => i,
    }
}

/// One line of the header block at `i`, past the `#` lines over it: a
/// comment or bookmark, a `手合割` line, a hand line, or a key and value.
pub open spec fn info_line(shapes: LineShapes, s: Seq<char>, i: int) -> Result<(InfoItem, int), Option<(int, LineFault)>> {
    let j = comment_lines_end(s, i);
    match comment_text_line(s, j) {
        Some((t, n)) => Ok((InfoItem::Comment(t), n)),
        None => match spec_information_line_preset(s, j) {
            Some((p, n)) => Ok((InfoItem::Preset(p), n)),
            None => match spec_information_line_hands(s, j) {
                Ok((c, h, n)) => Ok((if c == Color::Black { InfoItem::HandBlack(h) } else { InfoItem::HandWhite(h) }, n)),
                Err(Some(b)) => Err(Some(b)),
                Err(None) => match spec_keyvalue(shapes, s, j) {
                    Ok((k, v, n)) => Ok((InfoItem::KeyValue(k, v), n)),
                    Err(e) => Err(e),
                },
            },
        },
    }
}

/// The header lines from `i` on, added to `acc`, and where they end; a line
/// that is none of them ends the block (the `#` lines over it stay).
pub open spec fn info_lines(shapes: LineShapes, s: Seq<char>, i: int, acc: InfoView) -> Result<(InfoView, int), (int, LineFault)>
    decreases s.len() - i,
{
    match info_line(shapes, s, i) {
        Ok((item, n)) => if i < n <= s.len() {
            info_lines(shapes, s, n, apply_info(acc, item))
        } else {
            Ok((apply_info(acc, item), n))
        },
        Err(None) => Ok((acc, i)),
        Err(Some(b)) => Err(b),
    }
}

fn comment_lines_end_exec(s: &Vec<char>, i: usize) -> (j: usize)
    requires
        i <= s@.len(),
    ensures
        j == comment_lines_end(s@, i as int),
        j <= s@.len(),
{
    let mut j = i;
    loop
        invariant
            j <= s@.len(),
            comment_lines_end(s@, i as int) == comment_lines_end(s@, j as int),
        decreases s@.len() - j,
    {
        match comment_line_exec(s, j) {
            None => return j,
            Some((_, n)) => {
                j = n;
            },
        }
    }
}

fn info_line_exec(shapes: LineShapes, s: &Vec<char>, i: usize) -> (r: Result<(Information, usize), Refusal>)
    requires
        i <= s@.len(),
    ensures
        match info_line(shapes, s@, i as int) {
            Ok((item, n)) => r matches Ok((info, m)) && info@ == item && m == n && n <= s@.len(),
            Err(x) => r matches Err(y) && refusal_is(y, x),
        },
{
    let j = comment_lines_end_exec(s, i);
    match comment_text_line_exec(s, j) {
        Some((t, n)) => return Ok((Information::Comment(t), n)),
        None => {},
    }
    match information_line_preset_exec(s, j) {
        Some((p, n)) => return Ok((Information::Preset(p), n)),
        None => {},
    }
    match information_line_hands_exec(s, j) {
        Ok((c, h, n)) => {
            return Ok((if c == Color::Black { Information::HandBlack(h) } else { Information::HandWhite(h) }, n));
        },
        Err(Refusal::NotThis) => {},
        Err(b) => return Err(b),
    }
    match keyvalue_exec(shapes, s, j) {
        Ok((k, v, n)) => Ok((Information::KeyValue(k, v), n)),
        Err(e) => Err(e),
    }
}

fn map_insert_exec(m: &mut Vec<(String, String)>, k: String, v: String)
    ensures
        final(m)@.map_values(|e: (String, String)| (e.0@, e.1@)) == map_insert(old(m)@.map_values(|e: (String, String)| (e.0@, e.1@)), k@, v@),
{
    let ghost mv = old(m)@.map_values(|e: (String, String)| (e.0@, e.1@));
    let mut n = m.len();
    while n > 0
        invariant
            n <= m@.len(),
            *m == *old(m),
            mv == m@.map_values(|e: (String, String)| (e.0@, e.1@)),
            key_index(mv, k@, mv.len() as int) == key_index(mv, k@, n as int),
        decreases n,
    {
        if crate::text::str_eq(m[n - 1].0.as_str(), k.as_str()) {
            let ghost before = m@;
            m.set(n - 1, (k, v));
            proof {
                assert(m@.map_values(|e: (String, String)| (e.0@, e.1@)) =~= mv.update(n - 1, (k@, v@)));
            }
            return;
        }
        n = n - 1;
    }
    m.push((k, v));
    proof {
        assert(m@.map_values(|e: (String, String)| (e.0@, e.1@)) =~= mv.push((k@, v@)));
    }
}

fn apply_info_exec(acc: &mut InformationData, info: Information)
    ensures
        final(acc)@ == apply_info(old(acc)@, info@),
{
    match info {
        Information::Preset(p) => {
            acc.preset = Some(p);
        },
        Information::HandBlack(h) => {
            acc.hands[0] = h;
            assert(acc.hands@ =~= old(acc).hands@.update(0, h));
        },
        Information::HandWhite(h) => {
            acc.hands[1] = h;
            assert(acc.hands@ =~= old(acc).hands@.update(1, h));
        },
        Information::KeyValue(k, v) => {
            map_insert_exec(&mut acc.map, k, v);
        },
        Information::Comment(c) => {
            let ghost before = acc.comments@;
            acc.comments.push(c);
            assert(acc.comments@.map_values(|c: String| c@) =~= before.map_values(|c: String| c@).push(c@));
        },
    }
}

fn empty_info_exec() -> (d: InformationData)
    ensures
        d@ == empty_info(),
{
    let d = InformationData { preset: None, hands: [Hand::empty(), Hand::empty()], map: Vec::new(), comments: Vec::new() };
    assert(d@.hands =~= seq![Hand::spec_empty(), Hand::spec_empty()]);
    assert(d@.map =~= Seq::<(Seq<char>, Seq<char>)>::empty());
    assert(d@.comments =~= Seq::<Seq<char>>::empty());
    d
}

pub(crate) fn info_lines_exec(shapes: LineShapes, s: &Vec<char>, i: usize) -> (r: Result<(InformationData, usize), Refusal>)
    requires
        i <= s@.len(),
    ensures
        match info_lines(shapes, s@, i as int, empty_info()) {
            Ok((d, n)) => r matches Ok((e, m)) && e@ == d && m == n && n <= s@.len(),
            Err((at, f)) => r matches Err(Refusal::Broken(a, g)) && a == at && g == f,
        },
{
    let mut acc = empty_info_exec();
    let mut j = i;
    loop
        invariant
            j <= s@.len(),
            info_lines(shapes, s@, i as int, empty_info()) == info_lines(shapes, s@, j as int, acc@),
        decreases s@.len() - j,
    {
        match info_line_exec(shapes, s, j) {
            Ok((info, n)) => {
                apply_info_exec(&mut acc, info);
                if !(j < n) {
                    return Ok((acc, n));
                }
                j = n;
            },
            Err(Refusal::NotThis) => return Ok((acc, j)),
            Err(b) => return Err(b),
        }
    }
}

/// `x` held at what a `u8` holds.
pub open spec fn saturated_u8(x: int) -> u8 {
    if x > 255 { 255u8 } else { x as u8 }
}

/// Two statements of one hand added up, each count held at what a `u8`
/// holds: a hand stated twice is broken either way, and a wrapped count would
/// look like a real one.
pub open spec fn hand_sum(a: Hand, b: Hand) -> Hand {
    Hand {
        FU: saturated_u8(a.FU + b.FU),
        KY: saturated_u8(a.KY + b.KY),
        KE: saturated_u8(a.KE + b.KE),
        GI: saturated_u8(a.GI + b.GI),
        KI: saturated_u8(a.KI + b.KI),
        KA: saturated_u8(a.KA + b.KA),
        HI: saturated_u8(a.HI + b.HI),
    }
}

/// `m` with the entries `es` inserted in order.
pub open spec fn insert_all(m: Seq<(Seq<char>, Seq<char>)>, es: Seq<(Seq<char>, Seq<char>)>) -> Seq<(Seq<char>, Seq<char>)>
    decreases es.len(),
{
    if es.len() == 0 {
        m
    } else {
        insert_all(map_insert(m, es[0].0, es[0].1), es.drop_first())
    }
}

/// The block over a board and the one under it, as one: the first `手合割`,
/// the hands added up, the later value for a key stated in both, and the
/// comments in order.
pub open spec fn merged(l: InfoView, r: InfoView) -> InfoView {
    InfoView {
        preset: if l.preset is Some { l.preset } else { r.preset },
        hands: seq![hand_sum(l.hands[0], r.hands[0]), hand_sum(l.hands[1], r.hands[1])],
        map: insert_all(l.map, r.map),
        comments: l.comments + r.comments,
    }
}

/// What the block above the moves says: its lines, the board if there is
/// one, and the side to move if a line says it.
pub struct HeaderView {
    /// The header lines over and under the board, as one.
    pub info: InfoView,
    /// The board's ranks, first rank first.
    pub board: Option<Seq<Seq<Piece>>>,
    /// The side a `先手番`/`後手番` line names.
    pub side: Option<Color>,
}

/// The block above the moves at the head of `s`: header lines, a board
/// diagram, header lines, the side to move. A broken line in it is an error,
/// with where that line starts.
pub open spec fn spec_parse_without_moves(shapes: LineShapes, s: Seq<char>) -> Result<(HeaderView, int), (int, LineFault)> {
    match info_lines(shapes, s, 0, empty_info()) {
        Err(b) => Err(b),
        Ok((info1, a)) => {
            let read = spec_board(s, a);
            match read {
                Err(Some((at, f))) => Err((at, LineFault::Board(f))),
                _ => {
                    let (board, b) = match read {
                        Ok((rows, e)) => (Some(rows), e),
                        _ => (None, a),
                    };
                    match info_lines(shapes, s, b, empty_info()) {
                        Err(x) => Err(x),
                        Ok((info2, c)) => match side_to_move_line(shapes, s, c) {
                            Err(x) => Err(x),
                            Ok((side, d)) => Ok((HeaderView { info: merged(info1, info2), board, side }, d)),
                        },
                    }
                },
            }
        },
    }
}

/// What the block above the moves makes of a record, and what a reader needs
/// to go on.
pub struct HeaderBlock {
    /// The record so far: its header and where it starts, and no moves.
    pub jkf: JsonKifuFormat,
    /// The comments that stood among the header lines, which belong to the
    /// starting position.
    pub comments: Vec<String>,
    /// Whether a board could still be below: none was read here.
    pub a_board_could_follow: bool,
}

/// Whether `h` is the record and the rest `v` describes: a board is the
/// starting position spelled out, with the side the block names (Black when
/// it names none) and the hands it states; without one the record starts
/// from the `手合割` it names, 平手 when it names none.
pub open spec fn header_block_is(h: HeaderBlock, v: HeaderView) -> bool {
    &&& h.jkf.header@.map_values(|e: (String, String)| (e.0@, e.1@)) == v.info.map
    &&& h.jkf.moves@.len() == 0
    &&& h.comments@.map_values(|c: String| c@) == v.info.comments
    &&& h.a_board_could_follow == (v.board is None)
    &&& initial_described(h.jkf.initial, v)
}

/// Whether `initial` is where the block `v` says the record starts: a board
/// is the starting position spelled out, with the side the block names
/// (Black when it names none) and the hands it states; without one the
/// record starts from the `手合割` it names, 平手 when it names none.
pub open spec fn initial_described(initial: Option<Initial>, v: HeaderView) -> bool {
    match v.board {
        Some(rows) => initial matches Some(Initial { preset: Preset::PresetOther, data: Some(d) })
            && d.color == (match v.side { Some(c) => c, None => Color::Black })
            && board_of_ranks(d.board, rows)
            && d.hands@ == v.info.hands,
        None => initial == Some(Initial { preset: match v.info.preset { Some(p) => p, None => Preset::PresetHirate }, data: None }),
    }
}

/// Two statements of one hand added up, each count held at what a `u8`
/// holds (see [`hand_sum`]).
pub fn merged_hand(lhs: Hand, rhs: Hand) -> (h: Hand)
    ensures
        h == hand_sum(lhs, rhs),
{
    Hand {
        FU: lhs.FU.saturating_add(rhs.FU),
        KY: lhs.KY.saturating_add(rhs.KY),
        KE: lhs.KE.saturating_add(rhs.KE),
        GI: lhs.GI.saturating_add(rhs.GI),
        KI: lhs.KI.saturating_add(rhs.KI),
        KA: lhs.KA.saturating_add(rhs.KA),
        HI: lhs.HI.saturating_add(rhs.HI),
    }
}

/// Both hands of two statements added up (see [`hand_sum`]).
pub fn merged_hands(lhs: [Hand; 2], rhs: [Hand; 2]) -> (h: [Hand; 2])
    ensures
        h@ == seq![hand_sum(lhs@[0], rhs@[0]), hand_sum(lhs@[1], rhs@[1])],
{
    let h = [merged_hand(lhs[0], rhs[0]), merged_hand(lhs[1], rhs[1])];
    assert(h@ =~= seq![hand_sum(lhs@[0], rhs@[0]), hand_sum(lhs@[1], rhs@[1])]);
    h
}

proof fn lemma_insert_all_push(m: Seq<(Seq<char>, Seq<char>)>, es: Seq<(Seq<char>, Seq<char>)>, e: (Seq<char>, Seq<char>))
    ensures
        insert_all(m, es.push(e)) == map_insert(insert_all(m, es), e.0, e.1),
    decreases es.len(),
{
    if es.len() == 0 {
        assert(es.push(e).drop_first() =~= Seq::<(Seq<char>, Seq<char>)>::empty());
        assert(es.push(e)[0] == e);
        reveal_with_fuel(insert_all, 2);
    } else {
        assert(es.push(e).drop_first() =~= es.drop_first().push(e));
        assert(es.push(e)[0] == es[0]);
        lemma_insert_all_push(map_insert(m, es[0].0, es[0].1), es.drop_first(), e);
    }
}

/// The block over a board and the one under it, as one (see [`merged`]).
pub fn merged_information(lhs: InformationData, rhs: InformationData) -> (d: InformationData)
    requires
        lhs.hands@.len() == 2,
    ensures
        d@ == merged(lhs@, rhs@),
{
    let InformationData { preset: lp, hands: lh, map: lm, comments: lc } = lhs;
    let InformationData { preset: rp, hands: rh, map: rm, comments: rc } = rhs;
    let preset = match lp {
        Some(p) => Some(p),
        None => rp,
    };
    let hands = merged_hands(lh, rh);
    let ghost lmv = lm@.map_values(|e: (String, String)| (e.0@, e.1@));
    let ghost rmv = rm@.map_values(|e: (String, String)| (e.0@, e.1@));
    let mut map = lm;
    let mut k: usize = 0;
    assert(insert_all(lmv, rmv.take(0)) =~= lmv) by {
        assert(rmv.take(0) =~= Seq::<(Seq<char>, Seq<char>)>::empty());
    }
    while k < rm.len()
        invariant
            k <= rm@.len(),
            rmv == rm@.map_values(|e: (String, String)| (e.0@, e.1@)),
            map@.map_values(|e: (String, String)| (e.0@, e.1@)) == insert_all(lmv, rmv.take(k as int)),
        decreases rm@.len() - k,
    {
        let key = rm[k].0.clone();
        let value = rm[k].1.clone();
        proof {
            assert((key@, value@) == rmv[k as int]);
            lemma_insert_all_push(lmv, rmv.take(k as int), rmv[k as int]);
            assert(rmv.take(k as int).push(rmv[k as int]) =~= rmv.take(k + 1));
        }
        map_insert_exec(&mut map, key, value);
        k = k + 1;
    }
    assert(rmv.take(k as int) =~= rmv);
    let mut comments = lc;
    let ghost lcv = comments@.map_values(|c: String| c@);
    let ghost rcv = rc@.map_values(|c: String| c@);
    let mut more = rc;
    comments.append(&mut more);
    assert(comments@.map_values(|c: String| c@) =~= lcv + rcv);
    let d = InformationData { preset, hands, map, comments };
    d
}

fn rest_from<'a>(input: &'a str, e: usize) -> (rest: &'a str)
    requires
        e <= input@.len(),
    ensures
        rest@ == input@.skip(e as int),
{
    let rest = input.substring_char(e, input.unicode_len());
    assert(rest@ =~= input@.skip(e as int));
    rest
}

/// Reads the block above the moves at the head of `input` (see
/// [`spec_parse_without_moves`]): the text after it, and the record, the
/// comments and whether a board could still follow (see [`header_block_is`]).
pub fn parse_without_moves(shapes: LineShapes, input: &str) -> (r: Result<(&str, HeaderBlock), Refusal>)
    ensures
        match spec_parse_without_moves(shapes, input@) {
            Ok((v, e)) => r matches Ok((rest, h)) && rest@ == input@.skip(e) && header_block_is(h, v),
            Err((at, f)) => r matches Err(Refusal::Broken(a, g)) && a == at && g == f,
        },
{
    let s = crate::parser::csa_text::chars_of(input);
    match header_block_at(shapes, &s) {
        Ok((d, h)) => Ok((rest_from(input, d), h)),
        Err(e) => Err(e),
    }
}

/// Reads the block above the moves at the head of the characters `s` (see
/// [`spec_parse_without_moves`]): where it ends, and what it makes of the
/// record.
pub(crate) fn header_block_at(shapes: LineShapes, s: &Vec<char>) -> (r: Result<(usize, HeaderBlock), Refusal>)
    ensures
        match spec_parse_without_moves(shapes, s@) {
            Ok((v, e)) => r matches Ok((d, h)) && d == e && d <= s@.len() && header_block_is(h, v),
            Err((at, f)) => r matches Err(Refusal::Broken(a, g)) && a == at && g == f,
        },
{
    let s = s;
    let (info1, a) = match info_lines_exec(shapes, &s, 0) {
        Ok(x) => x,
        Err(e) => return Err(e),
    };
    let ghost read = spec_board(s@, a as int);
    let (board, b) = match board_at(&s, a) {
        Ok((e, grid)) => (Some(grid), e),
        Err(BoardRefusal::NotABoard) => (None, a),
        Err(BoardRefusal::Broken(at, f)) => return Err(Refusal::Broken(at, LineFault::Board(f))),
    };
    let (info2, c) = match info_lines_exec(shapes, &s, b) {
        Ok(x) => x,
        Err(e) => return Err(e),
    };
    let (side, d) = match side_to_move_line_exec(shapes, &s, c) {
        Ok(x) => x,
        Err(e) => return Err(e),
    };
    let info = merged_information(info1, info2);
    let has_board = board.is_some();
    let initial = match board {
        Some(grid) => Some(Initial {
            preset: Preset::PresetOther,
            data: Some(StateFormat {
                color: match side {
                    Some(c) => c,
                    None => Color::Black,
                },
                board: grid,
                hands: info.hands,
            }),
        }),
        None => Some(Initial {
            preset: match info.preset {
                Some(p) => p,
                None => Preset::PresetHirate,
            },
            data: None,
        }),
    };
    let InformationData { preset: _, hands: _, map, comments } = info;
    let jkf = JsonKifuFormat { header: map, initial, moves: Vec::new() };
    Ok((d, HeaderBlock { jkf, comments, a_board_could_follow: !has_board }))
}

/// Reads a `#` line at the head of `input`: the text after it, and the note.
pub fn comment_line(input: &str) -> (r: Result<(&str, String), Refusal>)
    ensures
        match spec_comment_line(input@, 0) {
            Some((t, n)) => r matches Ok((rest, u)) && rest@ == input@.skip(n) && u@ == t,
            None => r == Err::<(&str, String), Refusal>(Refusal::NotThis),
        },
{
    let s = crate::parser::csa_text::chars_of(input);
    match comment_line_exec(&s, 0) {
        None => Err(Refusal::NotThis),
        Some((t, n)) => Ok((rest_from(input, n), t)),
    }
}

/// Reads a `手合割` line at the head of `input` (see
/// [`spec_information_line_preset`]).
pub fn information_line_preset(input: &str) -> (r: Result<(&str, Information), Refusal>)
    ensures
        match spec_information_line_preset(input@, 0) {
            Some((p, n)) => r matches Ok((rest, info)) && rest@ == input@.skip(n) && info == Information::Preset(p),
            None => r == Err::<(&str, Information), Refusal>(Refusal::NotThis),
        },
{
    let s = crate::parser::csa_text::chars_of(input);
    match information_line_preset_exec(&s, 0) {
        None => Err(Refusal::NotThis),
        Some((p, n)) => Ok((rest_from(input, n), Information::Preset(p))),
    }
}

/// Reads a hand line at the head of `input` (see
/// [`spec_information_line_hands`]).
pub fn information_line_hands(input: &str) -> (r: Result<(&str, Information), Refusal>)
    ensures
        match spec_information_line_hands(input@, 0) {
            Ok((c, h, n)) => r matches Ok((rest, info)) && rest@ == input@.skip(n)
                && info == (if c == Color::Black { Information::HandBlack(h) } else { Information::HandWhite(h) }),
            Err(x) => r matches Err(y) && refusal_is(y, x),
        },
{
    let s = crate::parser::csa_text::chars_of(input);
    match information_line_hands_exec(&s, 0) {
        Err(e) => Err(e),
        Ok((c, h, n)) => Ok((rest_from(input, n), if c == Color::Black { Information::HandBlack(h) } else { Information::HandWhite(h) })),
    }
}

/// Reads the value of a hand line at the head of `input` (see
/// [`spec_hand_value`]).
pub fn information_value_hand(input: &str) -> (r: Result<(&str, Hand), Refusal>)
    ensures
        match spec_hand_value(input@, 0) {
            Some((h, n)) => r matches Ok((rest, g)) && rest@ == input@.skip(n) && g == h,
            None => r == Err::<(&str, Hand), Refusal>(Refusal::NotThis),
        },
{
    let s = crate::parser::csa_text::chars_of(input);
    match hand_value_exec(&s, 0) {
        None => Err(Refusal::NotThis),
        Some((h, n)) => Ok((rest_from(input, n), h)),
    }
}

/// Reads a `<キーワード>：<値>` line at the head of `input` (see
/// [`spec_keyvalue`]).
pub fn information_line_keyvalue(shapes: LineShapes, input: &str) -> (r: Result<(&str, Information), Refusal>)
    ensures
        match spec_keyvalue(shapes, input@, 0) {
            Ok((k, v, n)) => r matches Ok((rest, Information::KeyValue(a, b))) && rest@ == input@.skip(n) && a@ == k && b@ == v,
            Err(x) => r matches Err(y) && refusal_is(y, x),
        },
{
    let s = crate::parser::csa_text::chars_of(input);
    match keyvalue_exec(shapes, &s, 0) {
        Err(e) => Err(e),
        Ok((k, v, n)) => Ok((rest_from(input, n), Information::KeyValue(k, v))),
    }
}

/// Reads the header lines at the head of `input` (see [`info_lines`]).
pub fn informations(shapes: LineShapes, input: &str) -> (r: Result<(&str, InformationData), Refusal>)
    ensures
        match info_lines(shapes, input@, 0, empty_info()) {
            Ok((d, n)) => r matches Ok((rest, e)) && rest@ == input@.skip(n) && e@ == d,
            Err((at, f)) => r matches Err(Refusal::Broken(a, g)) && a == at && g == f,
        },
{
    let s = crate::parser::csa_text::chars_of(input);
    match info_lines_exec(shapes, &s, 0) {
        Err(e) => Err(e),
        Ok((d, n)) => Ok((rest_from(input, n), d)),
    }
}

/// A line that is none of the shapes the move list is made of, skipped
/// whole: where the line after it starts, and the line without its ending.
///
/// Asked past the padding, it declines a line that opens with a comment or
/// bookmark mark, a line ending, a side mark, or a numbered move line; and,
/// while a board could still be below, the `|` and `+` a diagram is drawn
/// with.
pub open spec fn spec_not_move_line(a_board_could_follow: bool, s: Seq<char>, i: int) -> Option<(Seq<char>, int)> {
    let h = padding_end(s, i);
    if !(0 <= h < s.len()) || s[h] == '*' || s[h] == '&' || is_line_end_char(s[h]) || side_mark_at(s, h) {
        None
    } else if a_board_could_follow && (s[h] == '|' || s[h] == '+') {
        None
    } else if spec_opens_a_numbered_line(s, h) {
        None
    } else {
        match not_line_ending(s, i) {
            None => None,
            Some(k) => match eol_at(s, k) {
                None => None,
                Some(n) => Some((s.subrange(i, k), n)),
            },
        }
    }
}

/// Skips a line the move list has no shape for, at the head of `input` (see
/// [`spec_not_move_line`]): the text after it, and the line.
pub fn not_move_line(a_board_could_follow: bool, input: &str) -> (r: Result<(&str, &str), Refusal>)
    ensures
        match spec_not_move_line(a_board_could_follow, input@, 0) {
            Some((line, n)) => r matches Ok((rest, l)) && rest@ == input@.skip(n) && l@ == line,
            None => r == Err::<(&str, &str), Refusal>(Refusal::NotThis),
        },
{
    let s = crate::parser::csa_text::chars_of(input);
    match not_move_line_at(a_board_could_follow, &s, 0) {
        None => Err(Refusal::NotThis),
        Some(n) => {
            let k = match not_line_ending_exec(&s, 0) {
                None => 0,
                Some(k) => k,
            };
            let line = input.substring_char(0, k);
            Ok((rest_from(input, n), line))
        },
    }
}

/// Skips a line the move list has no shape for at `i` (see
/// [`spec_not_move_line`]): where the line after it starts.
pub(crate) fn not_move_line_at(a_board_could_follow: bool, s: &Vec<char>, i: usize) -> (r: Option<usize>)
    requires
        i <= s@.len(),
    ensures
        match spec_not_move_line(a_board_could_follow, s@, i as int) {
            Some((_, n)) => r matches Some(m) && m == n && i <= n <= s@.len(),
            None => r is None,
        },
{
    let h = skip_padding(s, i);
    if !(h < s.len()) {
        return None;
    }
    let c = s[h];
    if c == '*' || c == '&' || c == '\n' || c == '\r' || c == '▲' || c == '△' {
        return None;
    }
    if a_board_could_follow && (c == '|' || c == '+') {
        return None;
    }
    if crate::parser::kakinoki::opens_a_numbered_line_at(s, h) {
        return None;
    }
    let k = match not_line_ending_exec(s, i) {
        None => return None,
        Some(k) => k,
    };
    match eol_exec(s, k) {
        None => None,
        Some(n) => {
            proof { crate::parser::kakinoki::lemma_eol_within(s@, k as int); }
            Some(n)
        },
    }
}

/// The comments of a node, none when it has none.
pub open spec fn comments_of(m: MoveFormat) -> Seq<String> {
    match m.comments {
        Some(c) => c@,
        None => Seq::empty(),
    }
}

/// Puts the comments that stood among the header lines in front of the ones
/// the move reader found above the first move: they are all comments on the
/// starting position, in the order the file wrote them. With none from the
/// header, or no node to put them on, nothing changes.
pub fn comments_on_the_starting_position(from_the_header: Vec<String>, moves: &mut Vec<MoveFormat>)
    ensures
        from_the_header@.len() == 0 || old(moves)@.len() == 0 ==> final(moves)@ == old(moves)@,
        from_the_header@.len() > 0 && old(moves)@.len() > 0 ==> {
            &&& final(moves)@.len() == old(moves)@.len()
            &&& final(moves)@.skip(1) == old(moves)@.skip(1)
            &&& final(moves)@[0].comments matches Some(c) && c@ == from_the_header@ + comments_of(old(moves)@[0])
            &&& final(moves)@[0].move_ == old(moves)@[0].move_
            &&& final(moves)@[0].time == old(moves)@[0].time
            &&& final(moves)@[0].special == old(moves)@[0].special
            &&& final(moves)@[0].forks == old(moves)@[0].forks
        },
{
    if from_the_header.len() == 0 || moves.len() == 0 {
        return;
    }
    let mut first = moves.remove(0);
    let ghost first0 = first;
    let mut rest = match first.comments.take() {
        Some(c) => c,
        None => Vec::new(),
    };
    assert(rest@ == comments_of(first0));
    let mut all = from_the_header;
    all.append(&mut rest);
    first.comments = Some(all);
    moves.insert(0, first);
    assert(moves@.skip(1) =~= old(moves)@.skip(1));
}
} // verus!
