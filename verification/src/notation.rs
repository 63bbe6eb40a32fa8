//! How a square and a piece are spelled, and what the notation can say about a
//! move.
//!
//! The traditional notation writes a square as its file in full-width digits
//! and its rank in kanji (`７六`). Every format this crate reads and writes uses
//! that spelling, and so does anything the crate says about a record it could
//! not process.

use vstd::prelude::*;
use crate::jkf::{Color, Kind, can_promote};
use crate::position::{PieceMove, Square};
use crate::text::push_char;

verus! {

/// Whether `c` ends a line, whichever ending a file or a value carries.
pub open spec fn spec_is_line_end(c: char) -> bool {
    c == '\n' || c == '\r'
}

/// Whether `c` ends a line.
pub fn is_line_end(c: char) -> (b: bool)
    ensures
        b == spec_is_line_end(c),
{
    c == '\n' || c == '\r'
}

/// Whether `c` is padding: white space that does not end a line.
pub open spec fn spec_is_padding(c: char) -> bool {
    ||| c == '\t'
    ||| c == '\u{b}'
    ||| c == '\u{c}'
    ||| c == ' '
    ||| c == '\u{85}'
    ||| c == '\u{a0}'
    ||| c == '\u{1680}'
    ||| ('\u{2000}' <= c && c <= '\u{200a}')
    ||| c == '\u{2028}'
    ||| c == '\u{2029}'
    ||| c == '\u{202f}'
    ||| c == '\u{205f}'
    ||| c == '\u{3000}'
}

/// Whether `c` is padding: white space that does not end a line.
pub fn is_padding(c: char) -> (b: bool)
    ensures
        b == spec_is_padding(c),
{
    c == '\t' || c == '\u{b}' || c == '\u{c}' || c == ' ' || c == '\u{85}' || c == '\u{a0}'
        || c == '\u{1680}' || ('\u{2000}' <= c && c <= '\u{200a}') || c == '\u{2028}'
        || c == '\u{2029}' || c == '\u{202f}' || c == '\u{205f}' || c == '\u{3000}'
}

/// A file 1-9 as the full-width digit `１`-`９`.
pub open spec fn sanyou_suji(n: int) -> char {
    if n == 1 { '１' } else if n == 2 { '２' } else if n == 3 { '３' }
    else if n == 4 { '４' } else if n == 5 { '５' } else if n == 6 { '６' }
    else if n == 7 { '７' } else if n == 8 { '８' } else { '９' }
}

/// A number 1-10 in kanji.
pub open spec fn kansuji(n: int) -> char {
    if n == 1 { '一' } else if n == 2 { '二' } else if n == 3 { '三' }
    else if n == 4 { '四' } else if n == 5 { '五' } else if n == 6 { '六' }
    else if n == 7 { '七' } else if n == 8 { '八' } else if n == 9 { '九' } else { '十' }
}

/// A file 1-9 as the full-width digit `１`-`９`.
pub fn sanyou_suji_char(n: u8) -> (c: char)
    requires
        1 <= n <= 9,
    ensures
        c == sanyou_suji(n as int),
{
    if n == 1 { '１' } else if n == 2 { '２' } else if n == 3 { '３' }
    else if n == 4 { '４' } else if n == 5 { '５' } else if n == 6 { '６' }
    else if n == 7 { '７' } else if n == 8 { '８' } else { '９' }
}

/// A number 1-10 in kanji.
pub fn kansuji_char(n: u8) -> (c: char)
    requires
        1 <= n <= 10,
    ensures
        c == kansuji(n as int),
{
    if n == 1 { '一' } else if n == 2 { '二' } else if n == 3 { '三' }
    else if n == 4 { '四' } else if n == 5 { '五' } else if n == 6 { '六' }
    else if n == 7 { '七' } else if n == 8 { '八' } else if n == 9 { '九' } else { '十' }
}

/// The word a move gives `kind`: a promoted minor piece is written out
/// (`成香` `成桂` `成銀`), a dragon is `龍`.
pub open spec fn spec_move_word(kind: Kind) -> Seq<char> {
    match kind {
        Kind::FU => "歩"@,
        Kind::KY => "香"@,
        Kind::KE => "桂"@,
        Kind::GI => "銀"@,
        Kind::KI => "金"@,
        Kind::KA => "角"@,
        Kind::HI => "飛"@,
        Kind::OU => "玉"@,
        Kind::TO => "と"@,
        Kind::NY => "成香"@,
        Kind::NK => "成桂"@,
        Kind::NG => "成銀"@,
        Kind::UM => "馬"@,
        Kind::RY => "龍"@,
    }
}

/// The word a move gives `kind`.
pub fn move_word(kind: Kind) -> (w: &'static str)
    ensures
        w@ == spec_move_word(kind),
{
    match kind {
        Kind::FU => "歩",
        Kind::KY => "香",
        Kind::KE => "桂",
        Kind::GI => "銀",
        Kind::KI => "金",
        Kind::KA => "角",
        Kind::HI => "飛",
        Kind::OU => "玉",
        Kind::TO => "と",
        Kind::NY => "成香",
        Kind::NK => "成桂",
        Kind::NG => "成銀",
        Kind::UM => "馬",
        Kind::RY => "龍",
    }
}

/// The character a board diagram gives `kind`: a promoted piece is one
/// character (`杏` `圭` `全`).
pub open spec fn spec_board_word(kind: Kind) -> char {
    match kind {
        Kind::FU => '歩',
        Kind::KY => '香',
        Kind::KE => '桂',
        Kind::GI => '銀',
        Kind::KI => '金',
        Kind::KA => '角',
        Kind::HI => '飛',
        Kind::OU => '玉',
        Kind::TO => 'と',
        Kind::NY => '杏',
        Kind::NK => '圭',
        Kind::NG => '全',
        Kind::UM => '馬',
        Kind::RY => '龍',
    }
}

/// The character a board diagram gives `kind`.
pub fn board_word(kind: Kind) -> (c: char)
    ensures
        c == spec_board_word(kind),
{
    match kind {
        Kind::FU => '歩',
        Kind::KY => '香',
        Kind::KE => '桂',
        Kind::GI => '銀',
        Kind::KI => '金',
        Kind::KA => '角',
        Kind::HI => '飛',
        Kind::OU => '玉',
        Kind::TO => 'と',
        Kind::NY => '杏',
        Kind::NK => '圭',
        Kind::NG => '全',
        Kind::UM => '馬',
        Kind::RY => '龍',
    }
}

/// Whether the notation has a `成` / `不成` for a move of `piece` by `side`
/// from `from` to `to`: a promotable piece, with the enemy camp (the far three
/// ranks) at one end of the move.
pub open spec fn spec_promotion_is_spellable(piece: Kind, from: Square, to: Square, side: Color) -> bool {
    can_promote(piece) && (from.spec_relative_rank(side) <= 3 || to.spec_relative_rank(side) <= 3)
}

/// Whether the notation has a `成` / `不成` for this move.
pub fn promotion_is_spellable(piece: Kind, from: Square, to: Square, side: Color) -> (b: bool)
    ensures
        b == spec_promotion_is_spellable(piece, from, to, side),
{
    piece.promoted() != piece && (from.relative_rank(side) <= 3 || to.relative_rank(side) <= 3)
}

/// A square spelled `７六`.
pub open spec fn spec_coordinate(sq: Square) -> Seq<char> {
    seq![sanyou_suji(sq.spec_file() as int), kansuji(sq.spec_rank() as int)]
}

/// Appends the spelling of a square.
pub fn push_coordinate(s: &mut String, sq: Square)
    ensures
        final(s)@ == old(s)@ + spec_coordinate(sq),
{
    push_char(s, sanyou_suji_char(sq.file()));
    push_char(s, kansuji_char(sq.rank()));
    assert(s@ =~= old(s)@ + spec_coordinate(sq));
}

/// A square spelled `７六`.
pub fn coordinate(sq: Square) -> (s: String)
    ensures
        s@ == spec_coordinate(sq),
{
    let mut s = String::new();
    push_coordinate(&mut s, sq);
    s
}

/// A list of squares, `７七 ８八`, or `(no candidate)` when it is empty.
pub open spec fn spec_coordinates(sqs: Seq<Square>) -> Seq<char>
    decreases sqs.len(),
{
    if sqs.len() == 0 {
        "(no candidate)"@
    } else if sqs.len() == 1 {
        spec_coordinate(sqs[0])
    } else {
        spec_coordinates(sqs.drop_last()) + " "@ + spec_coordinate(sqs.last())
    }
}

/// A list of squares, `７七 ８八`, or `(no candidate)` when it is empty.
pub fn coordinates(sqs: &Vec<Square>) -> (s: String)
    ensures
        s@ == spec_coordinates(sqs@),
{
    let mut s = String::new();
    if sqs.len() == 0 {
        s.append("(no candidate)");
        return s;
    }
    let mut i: usize = 0;
    while i < sqs.len()
        invariant
            i <= sqs@.len(),
            sqs@.len() > 0,
            i == 0 ==> s@.len() == 0,
            i > 0 ==> s@ == spec_coordinates(sqs@.take(i as int)),
        decreases sqs@.len() - i,
    {
        if i > 0 {
            s.append(" ");
        }
        push_coordinate(&mut s, sqs[i]);
        proof {
            let t = sqs@.take(i + 1);
            assert(t.drop_last() =~= sqs@.take(i as int));
            if i == 0 {
                assert(s@ =~= spec_coordinates(t));
            }
        }
        i = i + 1;
    }
    assert(sqs@.take(sqs@.len() as int) =~= sqs@);
    s
}

/// A move spelled from and to: `７七→７六`, with `成` when it promotes; a drop
/// is spelled `７六歩打`.
pub open spec fn spec_move_text(mv: PieceMove) -> Seq<char> {
    match mv {
        PieceMove::Normal { from, to, promote } =>
            spec_coordinate(from) + "→"@ + spec_coordinate(to) + (if promote { "成"@ } else { Seq::empty() }),
        PieceMove::Drop { piece, to } =>
            spec_coordinate(to) + seq![spec_board_word(piece.kind)] + "打"@,
    }
}

/// A move spelled from and to.
pub fn move_text(mv: PieceMove) -> (s: String)
    ensures
        s@ == spec_move_text(mv),
{
    let mut s = String::new();
    match mv {
        PieceMove::Normal { from, to, promote } => {
            push_coordinate(&mut s, from);
            s.append("→");
            push_coordinate(&mut s, to);
            if promote {
                s.append("成");
            }
        },
        PieceMove::Drop { piece, to } => {
            push_coordinate(&mut s, to);
            push_char(&mut s, board_word(piece.kind));
            s.append("打");
        },
    }
    assert(s@ =~= spec_move_text(mv));
    s
}

} // verus!
