//! USI: the starting position, then the moves played from it.

use vstd::prelude::*;
use crate::jkf::Kind;
use crate::position::{PieceMove, Square};
use crate::text::push_char;

verus! {

/// A square in USI: its file digit and its rank letter, `7g`.
pub open spec fn spec_square_usi(sq: Square) -> Seq<char> {
    seq![file_digit(sq.spec_file() as int), rank_letter(sq.spec_rank() as int)]
}

/// The digit for a file 1-9.
pub open spec fn file_digit(n: int) -> char {
    if n == 1 { '1' } else if n == 2 { '2' } else if n == 3 { '3' }
    else if n == 4 { '4' } else if n == 5 { '5' } else if n == 6 { '6' }
    else if n == 7 { '7' } else if n == 8 { '8' } else { '9' }
}

/// The letter for a rank 1-9.
pub open spec fn rank_letter(n: int) -> char {
    if n == 1 { 'a' } else if n == 2 { 'b' } else if n == 3 { 'c' }
    else if n == 4 { 'd' } else if n == 5 { 'e' } else if n == 6 { 'f' }
    else if n == 7 { 'g' } else if n == 8 { 'h' } else { 'i' }
}

/// A piece kind in USI, as a drop spells it.
pub open spec fn spec_kind_usi(k: Kind) -> Seq<char> {
    match k {
        Kind::FU => "P"@,
        Kind::KY => "L"@,
        Kind::KE => "N"@,
        Kind::GI => "S"@,
        Kind::KI => "G"@,
        Kind::KA => "B"@,
        Kind::HI => "R"@,
        Kind::OU => "K"@,
        Kind::TO => "+P"@,
        Kind::NY => "+L"@,
        Kind::NK => "+N"@,
        Kind::NG => "+S"@,
        Kind::UM => "+B"@,
        Kind::RY => "+R"@,
    }
}

/// A move in USI: `7g7f`, `8h2b+`, `P*5e`.
pub open spec fn spec_move_usi(mv: PieceMove) -> Seq<char> {
    match mv {
        PieceMove::Normal { from, to, promote } =>
            spec_square_usi(from) + spec_square_usi(to) + (if promote { "+"@ } else { Seq::empty() }),
        PieceMove::Drop { piece, to } => spec_kind_usi(piece.kind) + "*"@ + spec_square_usi(to),
    }
}

fn file_digit_exec(n: u8) -> (c: char)
    ensures
        c == file_digit(n as int),
{
    if n == 1 { '1' } else if n == 2 { '2' } else if n == 3 { '3' }
    else if n == 4 { '4' } else if n == 5 { '5' } else if n == 6 { '6' }
    else if n == 7 { '7' } else if n == 8 { '8' } else { '9' }
}

fn rank_letter_exec(n: u8) -> (c: char)
    ensures
        c == rank_letter(n as int),
{
    if n == 1 { 'a' } else if n == 2 { 'b' } else if n == 3 { 'c' }
    else if n == 4 { 'd' } else if n == 5 { 'e' } else if n == 6 { 'f' }
    else if n == 7 { 'g' } else if n == 8 { 'h' } else { 'i' }
}

fn kind_usi(k: Kind) -> (s: &'static str)
    ensures
        s@ == spec_kind_usi(k),
{
    match k {
        Kind::FU => "P",
        Kind::KY => "L",
        Kind::KE => "N",
        Kind::GI => "S",
        Kind::KI => "G",
        Kind::KA => "B",
        Kind::HI => "R",
        Kind::OU => "K",
        Kind::TO => "+P",
        Kind::NY => "+L",
        Kind::NK => "+N",
        Kind::NG => "+S",
        Kind::UM => "+B",
        Kind::RY => "+R",
    }
}

/// Appends a square in USI.
pub fn push_square_usi(s: &mut String, sq: Square)
    ensures
        final(s)@ == old(s)@ + spec_square_usi(sq),
{
    push_char(s, file_digit_exec(sq.file()));
    push_char(s, rank_letter_exec(sq.rank()));
    assert(s@ =~= old(s)@ + spec_square_usi(sq));
}

/// Appends a move in USI.
pub fn push_move_usi(s: &mut String, mv: PieceMove)
    ensures
        final(s)@ == old(s)@ + spec_move_usi(mv),
{
    match mv {
        PieceMove::Normal { from, to, promote } => {
            push_square_usi(s, from);
            push_square_usi(s, to);
            if promote {
                s.append("+");
            }
        },
        PieceMove::Drop { piece, to } => {
            s.append(kind_usi(piece.kind));
            s.append("*");
            push_square_usi(s, to);
        },
    }
    assert(s@ =~= old(s)@ + spec_move_usi(mv));
}

/// A move in USI.
pub fn move_usi(mv: PieceMove) -> (s: String)
    ensures
        s@ == spec_move_usi(mv),
{
    let mut s = String::new();
    push_move_usi(&mut s, mv);
    s
}

} // verus!
