//! The shapes KIF and KI2 share: padding and line endings, the piece and square
//! words, the board diagram, and the questions a reader asks about where a
//! line starts and whether what follows a finished line is the line below it.
//!
//! Everything here reads a text as a sequence of characters and positions in
//! it; a reader answers with where it stopped.

use vstd::prelude::*;
use crate::jkf::{Color, Kind, Piece, PlaceFormat, Time, TimeFormat};
use vstd::view::View;
use crate::notation::{is_padding, spec_is_padding};

verus! {

/// Whether `lit` stands in `s` at `i`.
pub open spec fn lit_at(s: Seq<char>, i: int, lit: Seq<char>) -> bool {
    0 <= i && i + lit.len() <= s.len() && s.subrange(i, i + lit.len()) == lit
}

/// Whether `s` holds `c` at `i`.
pub open spec fn char_at(s: Seq<char>, i: int, c: char) -> bool {
    0 <= i < s.len() && s[i] == c
}

/// Where the padding that starts at `i` ends.
pub open spec fn padding_end(s: Seq<char>, i: int) -> int
    decreases s.len() - i,
{
    if 0 <= i < s.len() && spec_is_padding(s[i]) {
        padding_end(s, i + 1)
    } else {
        i
    }
}

/// The end of a line ending (`\n` or `\r\n`) at `i`.
pub open spec fn line_ending_at(s: Seq<char>, i: int) -> Option<int> {
    if char_at(s, i, '\n') {
        Some(i + 1)
    } else if char_at(s, i, '\r') && char_at(s, i + 1, '\n') {
        Some(i + 2)
    } else {
        None
    }
}

/// The end of a line at `i`: a line ending, or the end of the text.
pub open spec fn eol_at(s: Seq<char>, i: int) -> Option<int> {
    if i == s.len() {
        Some(i)
    } else {
        line_ending_at(s, i)
    }
}

/// Whether `c` is `\n` or `\r`.
pub open spec fn is_line_end_char(c: char) -> bool {
    c == '\n' || c == '\r'
}

/// Where the line that `i` is in stops: the first `\n` or `\r` from `i`, or
/// the end of the text.
pub open spec fn line_stop(s: Seq<char>, i: int) -> int
    decreases s.len() - i,
{
    if 0 <= i < s.len() && !is_line_end_char(s[i]) {
        line_stop(s, i + 1)
    } else {
        i
    }
}

/// A piece word: `歩` to `龍`, with the spellings a record may use for the
/// promoted ones (`成香` as well as `杏`, `竜` as well as `龍`, `王` as well
/// as `玉`).
pub open spec fn piece_word(s: Seq<char>, i: int) -> Option<(Kind, int)> {
    if !(0 <= i < s.len()) {
        None
    } else {
        let c = s[i];
        if c == '歩' { Some((Kind::FU, i + 1)) }
        else if c == '香' { Some((Kind::KY, i + 1)) }
        else if c == '桂' { Some((Kind::KE, i + 1)) }
        else if c == '銀' { Some((Kind::GI, i + 1)) }
        else if c == '金' { Some((Kind::KI, i + 1)) }
        else if c == '角' { Some((Kind::KA, i + 1)) }
        else if c == '飛' { Some((Kind::HI, i + 1)) }
        else if c == '玉' || c == '王' { Some((Kind::OU, i + 1)) }
        else if c == 'と' { Some((Kind::TO, i + 1)) }
        else if c == '杏' { Some((Kind::NY, i + 1)) }
        else if c == '圭' { Some((Kind::NK, i + 1)) }
        else if c == '全' { Some((Kind::NG, i + 1)) }
        else if c == '馬' { Some((Kind::UM, i + 1)) }
        else if c == '龍' || c == '竜' { Some((Kind::RY, i + 1)) }
        else if c == '成' && char_at(s, i + 1, '香') { Some((Kind::NY, i + 2)) }
        else if c == '成' && char_at(s, i + 1, '桂') { Some((Kind::NK, i + 2)) }
        else if c == '成' && char_at(s, i + 1, '銀') { Some((Kind::NG, i + 2)) }
        else { None }
    }
}

/// A file as a full-width digit, `１` to `９`.
pub open spec fn file_digit(c: char) -> Option<u8> {
    if c == '１' { Some(1u8) } else if c == '２' { Some(2u8) } else if c == '３' { Some(3u8) }
    else if c == '４' { Some(4u8) } else if c == '５' { Some(5u8) } else if c == '６' { Some(6u8) }
    else if c == '７' { Some(7u8) } else if c == '８' { Some(8u8) } else if c == '９' { Some(9u8) }
    else { None }
}

/// A rank as a kanji numeral, `一` to `九`.
pub open spec fn rank_numeral(c: char) -> Option<u8> {
    if c == '一' { Some(1u8) } else if c == '二' { Some(2u8) } else if c == '三' { Some(3u8) }
    else if c == '四' { Some(4u8) } else if c == '五' { Some(5u8) } else if c == '六' { Some(6u8) }
    else if c == '七' { Some(7u8) } else if c == '八' { Some(8u8) } else if c == '九' { Some(9u8) }
    else { None }
}

/// Where a move goes: `同` and the padding after it (the square the move
/// before went to, `None`), or a file and a rank.
pub open spec fn move_to(s: Seq<char>, i: int) -> Option<(Option<PlaceFormat>, int)> {
    if char_at(s, i, '同') {
        Some((None, padding_end(s, i + 1)))
    } else if 0 <= i && i + 1 < s.len() && file_digit(s[i]) is Some && rank_numeral(s[i + 1]) is Some {
        Some((Some(PlaceFormat { x: file_digit(s[i]).unwrap(), y: rank_numeral(s[i + 1]).unwrap() }), i + 2))
    } else {
        None
    }
}

/// A square of a board diagram: ` ・` for an empty one, or a side (` ` for
/// Black, `v` for White) and a piece word.
pub open spec fn spec_board_piece(s: Seq<char>, i: int) -> Option<(Piece, int)> {
    if char_at(s, i, ' ') && char_at(s, i + 1, '・') {
        Some((Piece::spec_empty(), i + 2))
    } else if char_at(s, i, ' ') || char_at(s, i, 'v') {
        let color = if s[i] == ' ' { Color::Black } else { Color::White };
        match piece_word(s, i + 1) {
            Some((k, j)) => Some((Piece { color: Some(color), kind: Some(k) }, j)),
            None => None,
        }
    } else {
        None
    }
}

/// The first `n` squares of a rank, from `i`.
pub open spec fn rank_cells(s: Seq<char>, i: int, n: int) -> Option<(Seq<Piece>, int)>
    decreases n,
{
    if n <= 0 {
        Some((Seq::empty(), i))
    } else {
        match rank_cells(s, i, n - 1) {
            None => None,
            Some((ps, j)) => match spec_board_piece(s, j) {
                None => None,
                Some((p, k)) => Some((ps.push(p), k)),
            },
        }
    }
}

/// A rank of a board diagram: `|`, nine squares from file 9 to file 1, `|`
/// and the rank's numeral, then the end of the line. Padding may stand in
/// front of the frame and after the numeral, never inside.
pub open spec fn spec_board_row(s: Seq<char>, i: int) -> Option<(Seq<Piece>, int)> {
    let p = padding_end(s, i);
    if !char_at(s, p, '|') {
        None
    } else {
        match rank_cells(s, p + 1, 9) {
            None => None,
            Some((cells, j)) => {
                if char_at(s, j, '|') && j + 1 < s.len() && rank_numeral(s[j + 1]) is Some {
                    match eol_at(s, padding_end(s, j + 2)) {
                        Some(e) => Some((cells, e)),
                        None => None,
                    }
                } else {
                    None
                }
            },
        }
    }
}

/// The file numbers over a board diagram.
pub open spec fn files_line() -> Seq<char> {
    seq!['９', ' ', '８', ' ', '７', ' ', '６', ' ', '５', ' ', '４', ' ', '３', ' ', '２', ' ', '１']
}

/// The frame above and below a board diagram.
pub open spec fn frame_line() -> Seq<char> {
    seq!['+'] + Seq::new(27, |k: int| '-') + seq!['+']
}

/// What is wrong with a board diagram that began.
#[derive(Clone, Copy, Debug, PartialEq, Eq, Structural)]
pub enum BoardFault {
    /// The text ends before the ninth rank.
    EndsInsideTheBoard,
    /// A rank cannot be read.
    RankCannotBeRead,
    /// No frame under the ninth rank.
    NoFrameUnder,
}

/// Why no board diagram was read.
#[derive(Clone, Copy, Debug, PartialEq, Eq, Structural)]
pub enum BoardRefusal {
    /// The text there is no board diagram at all.
    NotABoard,
    /// A diagram began and is broken: where the line that broke starts, and
    /// what is wrong with it.
    Broken(usize, BoardFault),
}

/// The line at `i` holding only `lit` between padding, and where the line
/// after it starts; `at_eof` says whether the end of the text ends it too.
pub open spec fn framed_line(s: Seq<char>, i: int, lit: Seq<char>, at_eof: bool) -> Option<int> {
    let p = padding_end(s, i);
    if !lit_at(s, p, lit) {
        None
    } else {
        let q = padding_end(s, p + lit.len());
        if at_eof { eol_at(s, q) } else { line_ending_at(s, q) }
    }
}

/// The ranks from the `k`-th on, from `i`: the ranks read before them are
/// `rows`.
pub open spec fn ranks_from(s: Seq<char>, i: int, rows: Seq<Seq<Piece>>) -> Result<(Seq<Seq<Piece>>, int), (int, BoardFault)>
    decreases 9 - rows.len(),
{
    if rows.len() >= 9 {
        Ok((rows, i))
    } else {
        match spec_board_row(s, i) {
            Some((cells, j)) => ranks_from(s, j, rows.push(cells)),
            None => Err((i, if padding_end(s, i) == s.len() { BoardFault::EndsInsideTheBoard } else { BoardFault::RankCannotBeRead })),
        }
    }
}

/// A board diagram at `i`: the file numbers and the frame (or it is no board
/// at all), nine ranks and the frame under them (or it is a broken one). The
/// ranks as read, first rank first, and where the diagram ends.
pub open spec fn spec_board(s: Seq<char>, i: int) -> Result<(Seq<Seq<Piece>>, int), Option<(int, BoardFault)>> {
    match framed_line(s, i, files_line(), false) {
        None => Err(None),
        Some(a) => match framed_line(s, a, frame_line(), false) {
            None => Err(None),
            Some(b) => match ranks_from(s, b, Seq::empty()) {
                Err(e) => Err(Some(e)),
                Ok((rows, c)) => match framed_line(s, c, frame_line(), true) {
                    None => Err(Some((c, BoardFault::NoFrameUnder))),
                    Some(d) => Ok((rows, d)),
                },
            },
        },
    }
}

/// Whether `b` (indexed `[file - 1][rank - 1]`) is the diagram whose ranks,
/// first rank first and file 9 on the left, are `rows`.
pub open spec fn board_of_ranks(b: [[Piece; 9]; 9], rows: Seq<Seq<Piece>>) -> bool {
    forall|f: int, r: int| 0 <= f < 9 && 0 <= r < 9 ==> #[trigger] b@[f]@[r] == rows[r][8 - f]
}

pub(crate) fn lit_at_exec(s: &Vec<char>, i: usize, lit: &str) -> (b: bool)
    ensures
        b == lit_at(s@, i as int, lit@),
        s@.len() <= usize::MAX,
{
    let m = lit.unicode_len();
    if i > s.len() || m > s.len() - i {
        return false;
    }
    let mut k: usize = 0;
    while k < m
        invariant
            m == lit@.len(),
            i + m <= s.len(),
            k <= m,
            forall|j: int| 0 <= j < k ==> s@[i + j] == lit@[j],
        decreases m - k,
    {
        if s[i + k] != lit.get_char(k) {
            assert(s@.subrange(i as int, i + m)[k as int] != lit@[k as int]);
            return false;
        }
        k = k + 1;
    }
    assert(s@.subrange(i as int, i + m) =~= lit@);
    true
}

pub(crate) fn char_at_exec(s: &Vec<char>, i: usize, c: char) -> (b: bool)
    ensures
        b == char_at(s@, i as int, c),
        s@.len() <= usize::MAX,
{
    i < s.len() && s[i] == c
}

/// Where the padding that starts at `i` ends.
pub(crate) fn skip_padding(s: &Vec<char>, i: usize) -> (j: usize)
    requires
        i <= s@.len(),
    ensures
        j == padding_end(s@, i as int),
        i <= j <= s@.len(),
{
    let mut j = i;
    while j < s.len() && is_padding(s[j])
        invariant
            i <= j <= s@.len(),
            padding_end(s@, i as int) == padding_end(s@, j as int),
        decreases s@.len() - j,
    {
        j = j + 1;
    }
    j
}

pub(crate) fn line_ending_exec(s: &Vec<char>, i: usize) -> (r: Option<usize>)
    ensures
        match r {
            Some(j) => line_ending_at(s@, i as int) == Some(j as int),
            None => line_ending_at(s@, i as int) is None,
        },
{
    if char_at_exec(s, i, '\n') {
        Some(i + 1)
    } else if char_at_exec(s, i, '\r') && char_at_exec(s, i + 1, '\n') {
        Some(i + 2)
    } else {
        None
    }
}

pub(crate) fn eol_exec(s: &Vec<char>, i: usize) -> (r: Option<usize>)
    ensures
        match r {
            Some(j) => eol_at(s@, i as int) == Some(j as int),
            None => eol_at(s@, i as int) is None,
        },
{
    if i == s.len() {
        Some(i)
    } else {
        line_ending_exec(s, i)
    }
}

pub(crate) fn piece_word_exec(s: &Vec<char>, i: usize) -> (r: Option<(Kind, usize)>)
    ensures
        match r {
            Some((k, j)) => piece_word(s@, i as int) == Some((k, j as int)) && j <= s@.len(),
            None => piece_word(s@, i as int) is None,
        },
{
    if i >= s.len() {
        return None;
    }
    let c = s[i];
    if c == '歩' { Some((Kind::FU, i + 1)) }
    else if c == '香' { Some((Kind::KY, i + 1)) }
    else if c == '桂' { Some((Kind::KE, i + 1)) }
    else if c == '銀' { Some((Kind::GI, i + 1)) }
    else if c == '金' { Some((Kind::KI, i + 1)) }
    else if c == '角' { Some((Kind::KA, i + 1)) }
    else if c == '飛' { Some((Kind::HI, i + 1)) }
    else if c == '玉' || c == '王' { Some((Kind::OU, i + 1)) }
    else if c == 'と' { Some((Kind::TO, i + 1)) }
    else if c == '杏' { Some((Kind::NY, i + 1)) }
    else if c == '圭' { Some((Kind::NK, i + 1)) }
    else if c == '全' { Some((Kind::NG, i + 1)) }
    else if c == '馬' { Some((Kind::UM, i + 1)) }
    else if c == '龍' || c == '竜' { Some((Kind::RY, i + 1)) }
    else if c == '成' && char_at_exec(s, i + 1, '香') { Some((Kind::NY, i + 2)) }
    else if c == '成' && char_at_exec(s, i + 1, '桂') { Some((Kind::NK, i + 2)) }
    else if c == '成' && char_at_exec(s, i + 1, '銀') { Some((Kind::NG, i + 2)) }
    else { None }
}

fn file_digit_exec(c: char) -> (r: Option<u8>)
    ensures
        r == file_digit(c),
{
    if c == '１' { Some(1u8) } else if c == '２' { Some(2u8) } else if c == '３' { Some(3u8) }
    else if c == '４' { Some(4u8) } else if c == '５' { Some(5u8) } else if c == '６' { Some(6u8) }
    else if c == '７' { Some(7u8) } else if c == '８' { Some(8u8) } else if c == '９' { Some(9u8) }
    else { None }
}

pub(crate) fn rank_numeral_exec(c: char) -> (r: Option<u8>)
    ensures
        r == rank_numeral(c),
{
    if c == '一' { Some(1u8) } else if c == '二' { Some(2u8) } else if c == '三' { Some(3u8) }
    else if c == '四' { Some(4u8) } else if c == '五' { Some(5u8) } else if c == '六' { Some(6u8) }
    else if c == '七' { Some(7u8) } else if c == '八' { Some(8u8) } else if c == '九' { Some(9u8) }
    else { None }
}

pub(crate) fn move_to_exec(s: &Vec<char>, i: usize) -> (r: Option<(Option<PlaceFormat>, usize)>)
    ensures
        match r {
            Some((p, j)) => move_to(s@, i as int) == Some((p, j as int)) && j <= s@.len(),
            None => move_to(s@, i as int) is None,
        },
{
    if char_at_exec(s, i, '同') {
        return Some((None, skip_padding(s, i + 1)));
    }
    if i < s.len() && s.len() - i >= 2 {
        match (file_digit_exec(s[i]), rank_numeral_exec(s[i + 1])) {
            (Some(x), Some(y)) => Some((Some(PlaceFormat { x, y }), i + 2)),
            _ => None,
        }
    } else {
        None
    }
}

fn board_piece_exec(s: &Vec<char>, i: usize) -> (r: Option<(Piece, usize)>)
    ensures
        match r {
            Some((p, j)) => spec_board_piece(s@, i as int) == Some((p, j as int)) && j <= s@.len(),
            None => spec_board_piece(s@, i as int) is None,
        },
{
    if char_at_exec(s, i, ' ') && char_at_exec(s, i + 1, '・') {
        Some((Piece::empty(), i + 2))
    } else if char_at_exec(s, i, ' ') || char_at_exec(s, i, 'v') {
        let color = if s[i] == ' ' { Color::Black } else { Color::White };
        match piece_word_exec(s, i + 1) {
            Some((k, j)) => Some((Piece { color: Some(color), kind: Some(k) }, j)),
            None => None,
        }
    } else {
        None
    }
}

proof fn lemma_rank_cells_stay_none(s: Seq<char>, i: int, m: int, n: int)
    requires
        0 <= m <= n,
        rank_cells(s, i, m) is None,
    ensures
        rank_cells(s, i, n) is None,
    decreases n - m,
{
    if m < n {
        lemma_rank_cells_stay_none(s, i, m, n - 1);
    }
}

fn board_row_exec(s: &Vec<char>, i: usize) -> (r: Option<(Vec<Piece>, usize)>)
    requires
        i <= s@.len(),
    ensures
        match r {
            Some((cells, j)) => spec_board_row(s@, i as int) == Some((cells@, j as int)) && j <= s@.len(),
            None => spec_board_row(s@, i as int) is None,
        },
{
    let p = skip_padding(s, i);
    if !char_at_exec(s, p, '|') {
        return None;
    }
    let mut cells: Vec<Piece> = Vec::new();
    let mut j = p + 1;
    let mut n: usize = 0;
    assert(cells@ =~= Seq::<Piece>::empty());
    while n < 9
        invariant
            p == padding_end(s@, i as int),
            char_at(s@, p as int, '|'),
            p + 1 <= s@.len(),
            s@.len() <= usize::MAX,
            j <= s@.len(),
            n <= 9,
            rank_cells(s@, p + 1, n as int) == Some((cells@, j as int)),
        decreases 9 - n,
    {
        match board_piece_exec(s, j) {
            None => {
                proof {
                    assert(rank_cells(s@, p + 1, n + 1) is None);
                    lemma_rank_cells_stay_none(s@, p + 1, n + 1, 9);
                    assert(rank_cells(s@, p + 1, 9) is None);
                }
                return None;
            },
            Some((piece, k)) => {
                cells.push(piece);
                j = k;
            },
        }
        n = n + 1;
    }
    if !(char_at_exec(s, j, '|') && j + 1 < s.len()) {
        return None;
    }
    if rank_numeral_exec(s[j + 1]).is_none() {
        return None;
    }
    let q = skip_padding(s, j + 2);
    match eol_exec(s, q) {
        Some(e) => Some((cells, e)),
        None => None,
    }
}


fn framed_line_exec(s: &Vec<char>, i: usize, lit: &str, at_eof: bool) -> (r: Option<usize>)
    requires
        i <= s@.len(),
    ensures
        match r {
            Some(j) => framed_line(s@, i as int, lit@, at_eof) == Some(j as int) && j <= s@.len(),
            None => framed_line(s@, i as int, lit@, at_eof) is None,
        },
{
    let p = skip_padding(s, i);
    if !lit_at_exec(s, p, lit) {
        return None;
    }
    let q = skip_padding(s, p + lit.unicode_len());
    if at_eof { eol_exec(s, q) } else { line_ending_exec(s, q) }
}

pub(crate) proof fn lemma_files_and_frame()
    ensures
        "９ ８ ７ ６ ５ ４ ３ ２ １"@ == files_line(),
        "+---------------------------+"@ == frame_line(),
{
    reveal_strlit("９ ８ ７ ６ ５ ４ ３ ２ １");
    reveal_strlit("+---------------------------+");
    assert("９ ８ ７ ６ ５ ４ ３ ２ １"@ =~= files_line());
    assert("+---------------------------+"@ =~= frame_line());
}

/// Reads the nine ranks from `i` into `b`.
fn read_ranks(s: &Vec<char>, i: usize, b: &mut [[Piece; 9]; 9]) -> (r: Result<usize, (usize, BoardFault)>)
    requires
        i <= s@.len(),
    ensures
        match ranks_from(s@, i as int, Seq::empty()) {
            Ok((rows, e)) => r matches Ok(c) && c == e && e <= s@.len() && board_of_ranks(*final(b), rows),
            Err((at, f)) => r matches Err((a, g)) && a == at && g == f,
        },
{
    let ghost mut rows: Seq<Seq<Piece>> = Seq::empty();
    let mut at = i;
    let mut r: usize = 0;
    while r < 9
        invariant
            at <= s@.len(),
            r <= 9,
            rows.len() == r,
            ranks_from(s@, i as int, Seq::empty()) == ranks_from(s@, at as int, rows),
            forall|f: int, k: int| 0 <= f < 9 && 0 <= k < r ==> #[trigger] b@[f]@[k] == rows[k][8 - f],
            forall|k: int| 0 <= k < r ==> #[trigger] rows[k].len() == 9,
        decreases 9 - r,
    {
        match board_row_exec(s, at) {
            None => {
                let p = skip_padding(s, at);
                let f = if p == s.len() { BoardFault::EndsInsideTheBoard } else { BoardFault::RankCannotBeRead };
                return Err((at, f));
            },
            Some((cells, next)) => {
                proof { lemma_rank_cells_len(s@, padding_end(s@, at as int) + 1, 9); }
                let mut f: usize = 0;
                while f < 9
                    invariant
                        r < 9,
                        f <= 9,
                        cells@.len() == 9,
                        forall|x: int, k: int| 0 <= x < 9 && 0 <= k < r ==> #[trigger] b@[x]@[k] == rows[k][8 - x],
                        forall|x: int| 0 <= x < f ==> #[trigger] b@[x]@[r as int] == cells@[8 - x],
                    decreases 9 - f,
                {
                    b[f][r] = cells[8 - f];
                    f = f + 1;
                }
                proof {
                    rows = rows.push(cells@);
                }
                at = next;
            },
        }
        r = r + 1;
    }
    Ok(at)
}

proof fn lemma_rank_cells_len(s: Seq<char>, i: int, n: int)
    requires
        n >= 0,
        rank_cells(s, i, n) is Some,
    ensures
        rank_cells(s, i, n).unwrap().0.len() == n,
    decreases n,
{
    if n > 0 {
        lemma_rank_cells_len(s, i, n - 1);
    }
}

/// Reads a board diagram at `i` (see [`spec_board`]): where it ends, and the
/// board, indexed `[file - 1][rank - 1]`.
pub(crate) fn board_at(s: &Vec<char>, i: usize) -> (r: Result<(usize, [[Piece; 9]; 9]), BoardRefusal>)
    requires
        i <= s@.len(),
    ensures
        match spec_board(s@, i as int) {
            Ok((rows, e)) => r matches Ok((f, b)) && f == e && e <= s@.len() && board_of_ranks(b, rows),
            Err(None) => r == Err::<(usize, [[Piece; 9]; 9]), BoardRefusal>(BoardRefusal::NotABoard),
            Err(Some((at, f))) => r matches Err(BoardRefusal::Broken(a, g)) && a == at && g == f,
        },
{
    proof { lemma_files_and_frame(); }
    let a = match framed_line_exec(s, i, "９ ８ ７ ６ ５ ４ ３ ２ １", false) {
        None => return Err(BoardRefusal::NotABoard),
        Some(a) => a,
    };
    let b0 = match framed_line_exec(s, a, "+---------------------------+", false) {
        None => return Err(BoardRefusal::NotABoard),
        Some(b0) => b0,
    };
    let mut b = [[Piece::empty(); 9]; 9];
    let c = match read_ranks(s, b0, &mut b) {
        Err((at, f)) => return Err(BoardRefusal::Broken(at, f)),
        Ok(c) => c,
    };
    match framed_line_exec(s, c, "+---------------------------+", true) {
        None => Err(BoardRefusal::Broken(c, BoardFault::NoFrameUnder)),
        Some(d) => Ok((d, b)),
    }
}

/// Reads a board diagram at the head of `text` (see [`spec_board`]): the text
/// after it and the board, indexed `[file - 1][rank - 1]`.
///
/// Past the file numbers and the frame under them the text is a diagram,
/// whatever the rest of it says, so a rank that cannot be read is reported
/// with where it starts rather than taken for no board at all.
pub fn board(text: &str) -> (r: Result<(&str, [[Piece; 9]; 9]), BoardRefusal>)
    ensures
        match spec_board(text@, 0) {
            Ok((rows, e)) => r matches Ok((rest, b)) && rest@ == text@.skip(e) && board_of_ranks(b, rows),
            Err(None) => r == Err::<(&str, [[Piece; 9]; 9]), BoardRefusal>(BoardRefusal::NotABoard),
            Err(Some((at, f))) => r matches Err(BoardRefusal::Broken(a, g)) && a == at && g == f,
        },
{
    let s = crate::parser::csa_text::chars_of(text);
    match board_at(&s, 0) {
        Err(e) => Err(e),
        Ok((d, b)) => {
            let n = text.unicode_len();
            let rest = text.substring_char(d, n);
            assert(rest@ =~= text@.skip(d as int));
            Ok((rest, b))
        },
    }
}

/// What a reader of one square, one piece word or one rank reports when the
/// text does not start with one.
#[derive(Clone, Copy, Debug, PartialEq, Eq, Structural)]
pub struct Unreadable;

/// Reads a piece word at the head of `input` (see [`piece_word`]): the text
/// after it and the kind it names.
pub fn piece_kind(input: &str) -> (r: Result<(&str, Kind), Unreadable>)
    ensures
        match piece_word(input@, 0) {
            Some((k, e)) => r matches Ok((rest, m)) && rest@ == input@.skip(e) && m == k,
            None => r is Err,
        },
{
    let s = crate::parser::csa_text::chars_of(input);
    match piece_word_exec(&s, 0) {
        None => Err(Unreadable),
        Some((k, e)) => {
            let rest = input.substring_char(e, input.unicode_len());
            assert(rest@ =~= input@.skip(e as int));
            Ok((rest, k))
        },
    }
}

/// Reads a square of a board diagram at the head of `input` (see
/// [`spec_board_piece`]): the text after it and what stands on the square.
pub fn board_piece(input: &str) -> (r: Result<(&str, Piece), Unreadable>)
    ensures
        match spec_board_piece(input@, 0) {
            Some((p, e)) => r matches Ok((rest, q)) && rest@ == input@.skip(e) && q == p,
            None => r is Err,
        },
{
    let s = crate::parser::csa_text::chars_of(input);
    match board_piece_exec(&s, 0) {
        None => Err(Unreadable),
        Some((p, e)) => {
            let rest = input.substring_char(e, input.unicode_len());
            assert(rest@ =~= input@.skip(e as int));
            Ok((rest, p))
        },
    }
}

/// Reads a rank of a board diagram at the head of `input` (see
/// [`spec_board_row`]): the text after it and the nine squares, file 9 first.
pub fn board_row(input: &str) -> (r: Result<(&str, Vec<Piece>), Unreadable>)
    ensures
        match spec_board_row(input@, 0) {
            Some((cells, e)) => r matches Ok((rest, v)) && rest@ == input@.skip(e) && v@ == cells,
            None => r is Err,
        },
{
    let s = crate::parser::csa_text::chars_of(input);
    match board_row_exec(&s, 0) {
        None => Err(Unreadable),
        Some((cells, e)) => {
            let rest = input.substring_char(e, input.unicode_len());
            assert(rest@ =~= input@.skip(e as int));
            Ok((rest, cells))
        },
    }
}

/// The value of a digit a branch header's number is written with, ASCII or
/// full-width.
pub open spec fn ply_digit(c: char) -> Option<int> {
    if '0' <= c <= '9' {
        Some(c as int - '0' as int)
    } else if '０' <= c <= '９' {
        Some(c as int - '０' as int)
    } else {
        None
    }
}

/// Where the run of digits from `i` ends.
pub open spec fn digits_end(s: Seq<char>, i: int) -> int
    decreases s.len() - i,
{
    if 0 <= i < s.len() && ply_digit(s[i]) is Some {
        digits_end(s, i + 1)
    } else {
        i
    }
}

/// `x`, held at what a `usize` holds.
pub open spec fn saturated(x: int) -> int {
    if x > usize::MAX { usize::MAX as int } else { x }
}

/// The number the digits from `i` to `e` spell, held at what a `usize` holds
/// at every step.
pub open spec fn ply_value(s: Seq<char>, i: int, e: int) -> int
    decreases e - i,
{
    if e <= i {
        0
    } else {
        saturated(saturated(ply_value(s, i, e - 1) * 10) + ply_digit(s[e - 1]).unwrap())
    }
}

/// Whether `変化` and a colon (`：` or `:`) stand at `p`.
pub open spec fn branch_keyword_at(s: Seq<char>, p: int) -> bool {
    char_at(s, p, '変') && char_at(s, p + 1, '化') && (char_at(s, p + 2, '：') || char_at(s, p + 2, ':'))
}

/// A `変化：<N>手` header from `i`: padding, `変化`, a colon, padding, the
/// number (at least one digit) and, if it is there, `手`. Where the header
/// stops and the number, held at what a `usize` holds.
pub open spec fn spec_branch_header_ply(s: Seq<char>, i: int) -> Option<(int, int)> {
    let p = padding_end(s, i);
    if !branch_keyword_at(s, p) {
        None
    } else {
        let q = padding_end(s, p + 3);
        let e = digits_end(s, q);
        if e == q {
            None
        } else {
            Some((if char_at(s, e, '手') { e + 1 } else { e }, ply_value(s, q, e)))
        }
    }
}

/// Whether a `変化：<N>手` header begins at `i`.
pub open spec fn spec_opens_a_branch_header(s: Seq<char>, i: int) -> bool {
    &&& char_at(s, padding_end(s, i), '変') && char_at(s, padding_end(s, i) + 1, '化')
    &&& spec_branch_header_ply(s, i) is Some
}

/// Whether the shapes both formats share open a line at `i`, past its
/// padding: a comment (`*`), a bookmark (`&`), a note from a program (`#`), a
/// `変化：<N>手` header, a `まで…` outcome line.
pub open spec fn spec_opens_a_shared_line(s: Seq<char>, i: int) -> bool {
    let h = padding_end(s, i);
    ||| char_at(s, h, '*') || char_at(s, h, '&') || char_at(s, h, '#')
    ||| spec_opens_a_branch_header(s, h)
    ||| char_at(s, h, 'ま') && char_at(s, h + 1, 'で')
}

/// What a header that does not read reports.
#[derive(Clone, Copy, Debug, PartialEq, Eq, Structural)]
pub struct NotABranchHeader;

fn ply_digit_exec(c: char) -> (r: Option<usize>)
    ensures
        match r {
            Some(d) => ply_digit(c) == Some(d as int) && d <= 9,
            None => ply_digit(c) is None,
        },
{
    if '0' <= c && c <= '9' {
        Some((c as u32 - '0' as u32) as usize)
    } else if '０' <= c && c <= '９' {
        Some((c as u32 - '０' as u32) as usize)
    } else {
        None
    }
}

pub(crate) fn branch_header_at(s: &Vec<char>, i: usize) -> (r: Option<(usize, usize)>)
    requires
        i <= s@.len(),
    ensures
        match r {
            Some((e, n)) => spec_branch_header_ply(s@, i as int) == Some((e as int, n as int)) && e <= s@.len(),
            None => spec_branch_header_ply(s@, i as int) is None,
        },
{
    let p = skip_padding(s, i);
    if !(char_at_exec(s, p, '変') && char_at_exec(s, p + 1, '化') && (char_at_exec(s, p + 2, '：') || char_at_exec(s, p + 2, ':'))) {
        return None;
    }
    let q = skip_padding(s, p + 3);
    let mut e = q;
    let mut ply: usize = 0;
    while e < s.len()
        invariant
            q <= e <= s@.len(),
            digits_end(s@, q as int) == digits_end(s@, e as int),
            ply == ply_value(s@, q as int, e as int),
        ensures
            q <= e <= s@.len(),
            digits_end(s@, q as int) == digits_end(s@, e as int),
            ply == ply_value(s@, q as int, e as int),
            e < s@.len() ==> ply_digit(s@[e as int]) is None,
        decreases s@.len() - e,
    {
        let d = match ply_digit_exec(s[e]) {
            None => break,
            Some(d) => d,
        };
        let times_ten = match ply.checked_mul(10) {
            Some(x) => x,
            None => usize::MAX,
        };
        ply = times_ten.saturating_add(d);
        e = e + 1;
    }
    if e == q {
        return None;
    }
    let end = if char_at_exec(s, e, '手') { e + 1 } else { e };
    Some((end, ply))
}

/// Reads a `変化：<N>手` header at the head of `head` (see
/// [`spec_branch_header_ply`]): the text after it, and the number, which is
/// held at what a `usize` holds rather than refused.
pub fn branch_header_ply(head: &str) -> (r: Result<(&str, usize), NotABranchHeader>)
    ensures
        match spec_branch_header_ply(head@, 0) {
            Some((e, n)) => r matches Ok((rest, m)) && rest@ == head@.skip(e) && m == n,
            None => r is Err,
        },
{
    let s = crate::parser::csa_text::chars_of(head);
    match branch_header_at(&s, 0) {
        None => Err(NotABranchHeader),
        Some((e, n)) => {
            let rest = head.substring_char(e, head.unicode_len());
            assert(rest@ =~= head@.skip(e as int));
            Ok((rest, n))
        },
    }
}

pub(crate) fn opens_a_branch_header_at(s: &Vec<char>, i: usize) -> (b: bool)
    requires
        i <= s@.len(),
    ensures
        b == spec_opens_a_branch_header(s@, i as int),
{
    let p = skip_padding(s, i);
    char_at_exec(s, p, '変') && char_at_exec(s, p + 1, '化') && branch_header_at(s, i).is_some()
}

/// Whether a `変化：<N>手` header begins `head` (see
/// [`spec_opens_a_branch_header`]).
pub fn opens_a_branch_header(head: &str) -> (b: bool)
    ensures
        b == spec_opens_a_branch_header(head@, 0),
{
    let s = crate::parser::csa_text::chars_of(head);
    opens_a_branch_header_at(&s, 0)
}

pub(crate) fn opens_a_shared_line_at(s: &Vec<char>, i: usize) -> (b: bool)
    requires
        i <= s@.len(),
    ensures
        b == spec_opens_a_shared_line(s@, i as int),
{
    let h = skip_padding(s, i);
    (char_at_exec(s, h, '*') || char_at_exec(s, h, '&') || char_at_exec(s, h, '#'))
        || opens_a_branch_header_at(s, h)
        || (char_at_exec(s, h, 'ま') && char_at_exec(s, h + 1, 'で'))
}

/// Whether one of the shapes both formats share opens `head`, however far in
/// it starts (see [`spec_opens_a_shared_line`]).
pub fn opens_a_shared_line(head: &str) -> (b: bool)
    ensures
        b == spec_opens_a_shared_line(head@, 0),
{
    let s = crate::parser::csa_text::chars_of(head);
    opens_a_shared_line_at(&s, 0)
}

/// Whether `c` is an ASCII digit.
pub open spec fn ascii_digit(c: char) -> bool {
    '0' <= c <= '9'
}

/// Where the run of ASCII digits from `i` ends.
pub open spec fn ascii_digits_end(s: Seq<char>, i: int) -> int
    decreases s.len() - i,
{
    if 0 <= i < s.len() && ascii_digit(s[i]) {
        ascii_digits_end(s, i + 1)
    } else {
        i
    }
}

/// The number the ASCII digits from `i` to `e` spell.
pub open spec fn decimal_value(s: Seq<char>, i: int, e: int) -> int
    decreases e - i,
{
    if e <= i {
        0
    } else {
        decimal_value(s, i, e - 1) * 10 + (s[e - 1] as int - '0' as int)
    }
}

/// The KIF outcome word at `i`, if one stands there: longest first, so that
/// no word is cut short by a shorter one.
pub open spec fn outcome_word_here(s: Seq<char>, i: int) -> Option<Seq<char>> {
    if lit_at(s, i, "切れ負け"@) { Some("切れ負け"@) }
    else if lit_at(s, i, "入玉勝ち"@) { Some("入玉勝ち"@) }
    else if lit_at(s, i, "反則負け"@) { Some("反則負け"@) }
    else if lit_at(s, i, "反則勝ち"@) { Some("反則勝ち"@) }
    else if lit_at(s, i, "不戦勝"@) { Some("不戦勝"@) }
    else if lit_at(s, i, "不戦敗"@) { Some("不戦敗"@) }
    else if lit_at(s, i, "千日手"@) { Some("千日手"@) }
    else if lit_at(s, i, "持将棋"@) { Some("持将棋"@) }
    else if lit_at(s, i, "投了"@) { Some("投了"@) }
    else if lit_at(s, i, "中断"@) { Some("中断"@) }
    else if lit_at(s, i, "詰み"@) { Some("詰み"@) }
    else if lit_at(s, i, "不詰"@) { Some("不詰"@) }
    else { None }
}

/// What a reader makes of a line.
#[derive(Clone, Copy, Debug, PartialEq, Eq, Structural)]
pub enum Verdict {
    /// It reads.
    Read,
    /// It is this shape and broken.
    Broken,
    /// It is not this shape at all.
    NotThis,
}

/// The verdict on a reading: read, or refused as broken (`true`) or as not
/// this shape (`false`).
pub open spec fn verdict_of<T>(r: Result<T, bool>) -> Verdict {
    match r {
        Ok(_) => Verdict::Read,
        Err(true) => Verdict::Broken,
        Err(false) => Verdict::NotThis,
    }
}

/// The number of at most 255 the ASCII digits at `i` spell, and where they end.
pub open spec fn small_number_at(s: Seq<char>, i: int, max: int) -> Option<(int, int)> {
    let d = ascii_digits_end(s, i);
    if d == i || decimal_value(s, i, d) > max { None } else { Some((decimal_value(s, i, d), d)) }
}

/// A move's origin at `i`: `打` for a drop (no origin), or `(<file><rank>)`.
/// An origin in brackets whose number is not a square of the board is broken.
pub open spec fn origin_at(s: Seq<char>, i: int) -> Result<(Option<PlaceFormat>, int), bool> {
    if char_at(s, i, '打') {
        Ok((None, i + 1))
    } else if char_at(s, i, '(') {
        match small_number_at(s, i + 1, 255) {
            Some((v, d)) => if !char_at(s, d, ')') {
                Err(false)
            } else if 1 <= v / 10 <= 9 && 1 <= v % 10 <= 9 {
                Ok((Some(PlaceFormat { x: (v / 10) as u8, y: (v % 10) as u8 }), d + 1))
            } else {
                Err(true)
            },
            None => Err(false),
        }
    } else {
        Err(false)
    }
}

/// Whether `▲` or `△` stands at `i`.
pub open spec fn side_mark_at(s: Seq<char>, i: int) -> bool {
    char_at(s, i, '▲') || char_at(s, i, '△')
}

/// What a numbered line says after its number (see [`NumberedBody`]).
pub enum BodyView {
    /// One of the outcome words.
    Outcome(Seq<char>),
    /// A move.
    Move { to: Option<PlaceFormat>, piece: Kind, promote: Option<bool>, from: Option<PlaceFormat> },
}

/// The move of a numbered line at `i`: a side mark if there is one (read and
/// dropped), where the move goes, the piece, `不成` or `成` if either is
/// there, and where it came from. Past a promotion word the line has said it
/// is a move, so an origin that is missing is a broken line.
pub open spec fn move_body_at(s: Seq<char>, i: int) -> Result<(BodyView, int), bool> {
    let a = if side_mark_at(s, i) { i + 1 } else { i };
    match move_to(s, a) {
        None => Err(false),
        Some((to, b)) => match piece_word(s, b) {
            None => Err(false),
            Some((piece, c)) => {
                let no_promotion = char_at(s, c, '不') && char_at(s, c + 1, '成');
                let promote = if no_promotion { Some(false) } else if char_at(s, c, '成') { Some(true) } else { None };
                let e = if no_promotion { c + 2 } else if char_at(s, c, '成') { c + 1 } else { c };
                match origin_at(s, e) {
                    Ok((from, f)) => Ok((BodyView::Move { to, piece, promote, from }, f)),
                    Err(broken) => Err(broken || promote is Some),
                }
            },
        },
    }
}

/// A time `<h>:<m>:<s>` or `<m>:<s>` at `i`, each number at most 65535.
pub open spec fn spec_move_time_format(s: Seq<char>, i: int) -> Option<(TimeFormat, int)> {
    let three = match small_number_at(s, i, 65535) {
        Some((h, a)) => if char_at(s, a, ':') {
            match small_number_at(s, a + 1, 65535) {
                Some((m, b)) => if char_at(s, b, ':') {
                    match small_number_at(s, b + 1, 65535) {
                        Some((sec, c)) => Some((TimeFormat { h: Some(h as u16), m: m as u16, s: sec as u16 }, c)),
                        None => None,
                    }
                } else { None },
                None => None,
            }
        } else { None },
        None => None,
    };
    if three is Some {
        three
    } else {
        match small_number_at(s, i, 65535) {
            Some((m, a)) => if char_at(s, a, ':') {
                match small_number_at(s, a + 1, 65535) {
                    Some((sec, b)) => Some((TimeFormat { h: None, m: m as u16, s: sec as u16 }, b)),
                    None => None,
                }
            } else { None },
            None => None,
        }
    }
}

/// The `( 0:03/00:00:03)` a KIF move line may carry: the time of the move and
/// the time used so far, with padding inside the brackets around each.
pub open spec fn spec_move_time(s: Seq<char>, i: int) -> Option<(Time, int)> {
    if !char_at(s, i, '(') {
        None
    } else {
        match spec_move_time_format(s, padding_end(s, i + 1)) {
            None => None,
            Some((now, a)) => {
                let slash = padding_end(s, a);
                if !char_at(s, slash, '/') {
                    None
                } else {
                    match spec_move_time_format(s, padding_end(s, slash + 1)) {
                        None => None,
                        Some((total, b)) => {
                            let close = padding_end(s, b);
                            if char_at(s, close, ')') { Some((Time { now, total }, close + 1)) } else { None }
                        },
                    }
                }
            },
        }
    }
}

/// A `<手数> <指し手> [<消費時間>]` line at `i`, up to where the line's end
/// is left to the caller: padding, the ply number (which must fit a
/// `usize`), padding, an outcome word or a move, padding and the time if it is
/// there. Read, or refused as broken (`true`) or as no such line (`false`).
pub open spec fn numbered_line_at(s: Seq<char>, i: int) -> Result<(int, BodyView, Option<Time>, int), bool> {
    let p = padding_end(s, i);
    match small_number_at(s, p, usize::MAX as int) {
        None => Err(false),
        Some((ply, d)) => {
            let q = padding_end(s, d);
            let body = match outcome_word_here(s, q) {
                Some(w) => Ok((BodyView::Outcome(w), q + w.len())),
                None => move_body_at(s, q),
            };
            match body {
                Err(b) => Err(b),
                Ok((b, e)) => {
                    let r = padding_end(s, e);
                    match spec_move_time(s, r) {
                        Some((t, f)) => Ok((ply, b, Some(t), f)),
                        None => Ok((ply, b, None, r)),
                    }
                },
            }
        },
    }
}

/// What a reader of `<手数> <指し手>` lines makes of `l`.
pub open spec fn spec_numbered_line(l: Seq<char>) -> Verdict {
    verdict_of(numbered_line_at(l, 0))
}

/// The line that starts at `i`, without its ending.
pub open spec fn line_at(s: Seq<char>, i: int) -> Seq<char> {
    s.subrange(i, line_stop(s, i))
}

/// Whether a `<手数> <指し手>` line opens at `i`: a number and then padding
/// and something after it, or a number the reader takes for a move line,
/// broken or not.
pub open spec fn spec_opens_a_numbered_line(s: Seq<char>, i: int) -> bool {
    let line = line_at(s, i);
    let p = padding_end(line, 0);
    let a = ascii_digits_end(line, p);
    if a == p {
        false
    } else if a < line.len() && spec_is_padding(line[a]) {
        padding_end(line, a) < line.len()
    } else {
        spec_numbered_line(line) != Verdict::NotThis
    }
}

fn line_from(s: &Vec<char>, i: usize) -> (l: Vec<char>)
    requires
        i <= s@.len(),
    ensures
        l@ == line_at(s@, i as int),
{
    let mut l: Vec<char> = Vec::new();
    let mut j = i;
    while j < s.len() && !(s[j] == '\n' || s[j] == '\r')
        invariant
            i <= j <= s@.len(),
            l@ == s@.subrange(i as int, j as int),
            line_stop(s@, i as int) == line_stop(s@, j as int),
        decreases s@.len() - j,
    {
        l.push(s[j]);
        j = j + 1;
        assert(l@ =~= s@.subrange(i as int, j as int));
    }
    l
}

/// The end of the ASCII digits from `i`, and the number they spell when it
/// fits a `usize`.
pub(crate) fn read_decimal(s: &Vec<char>, i: usize) -> (r: (usize, Option<usize>))
    requires
        i <= s@.len(),
    ensures
        r.0 == ascii_digits_end(s@, i as int),
        i <= r.0 <= s@.len(),
        match r.1 {
            Some(v) => v == decimal_value(s@, i as int, r.0 as int),
            None => decimal_value(s@, i as int, r.0 as int) > usize::MAX,
        },
{
    let mut j = i;
    let mut v: Option<usize> = Some(0);
    while j < s.len() && '0' <= s[j] && s[j] <= '9'
        invariant
            i <= j <= s@.len(),
            ascii_digits_end(s@, i as int) == ascii_digits_end(s@, j as int),
            match v {
                Some(x) => x == decimal_value(s@, i as int, j as int),
                None => decimal_value(s@, i as int, j as int) > usize::MAX,
            },
        decreases s@.len() - j,
    {
        let d = (s[j] as u32 - '0' as u32) as usize;
        v = match v {
            Some(x) => match x.checked_mul(10) {
                Some(y) => y.checked_add(d),
                None => None,
            },
            None => None,
        };
        j = j + 1;
    }
    (j, v)
}

fn outcome_word_exec(s: &Vec<char>, i: usize) -> (r: Option<&'static str>)
    ensures
        match r {
            Some(w) => outcome_word_here(s@, i as int) == Some(w@),
            None => outcome_word_here(s@, i as int) is None,
        },
{
    if lit_at_exec(s, i, "切れ負け") { Some("切れ負け") }
    else if lit_at_exec(s, i, "入玉勝ち") { Some("入玉勝ち") }
    else if lit_at_exec(s, i, "反則負け") { Some("反則負け") }
    else if lit_at_exec(s, i, "反則勝ち") { Some("反則勝ち") }
    else if lit_at_exec(s, i, "不戦勝") { Some("不戦勝") }
    else if lit_at_exec(s, i, "不戦敗") { Some("不戦敗") }
    else if lit_at_exec(s, i, "千日手") { Some("千日手") }
    else if lit_at_exec(s, i, "持将棋") { Some("持将棋") }
    else if lit_at_exec(s, i, "投了") { Some("投了") }
    else if lit_at_exec(s, i, "中断") { Some("中断") }
    else if lit_at_exec(s, i, "詰み") { Some("詰み") }
    else if lit_at_exec(s, i, "不詰") { Some("不詰") }
    else { None }
}

pub(crate) fn small_number_exec(s: &Vec<char>, i: usize, max: usize) -> (r: Option<(usize, usize)>)
    requires
        i <= s@.len(),
    ensures
        match r {
            Some((v, d)) => small_number_at(s@, i as int, max as int) == Some((v as int, d as int)) && d <= s@.len(),
            None => small_number_at(s@, i as int, max as int) is None,
        },
{
    let (d, n) = read_decimal(s, i);
    if d == i {
        return None;
    }
    match n {
        Some(v) => if v > max { None } else { Some((v, d)) },
        None => None,
    }
}

fn origin_exec(s: &Vec<char>, i: usize) -> (r: Result<(Option<PlaceFormat>, usize), bool>)
    requires
        i <= s@.len(),
    ensures
        match r {
            Ok((from, e)) => origin_at(s@, i as int) == Ok::<(Option<PlaceFormat>, int), bool>((from, e as int)) && e <= s@.len(),
            Err(b) => origin_at(s@, i as int) == Err::<(Option<PlaceFormat>, int), bool>(b),
        },
{
    if char_at_exec(s, i, '打') {
        Ok((None, i + 1))
    } else if char_at_exec(s, i, '(') {
        match small_number_exec(s, i + 1, 255) {
            Some((v, d)) => if !char_at_exec(s, d, ')') {
                Err(false)
            } else if 1 <= v / 10 && v / 10 <= 9 && 1 <= v % 10 && v % 10 <= 9 {
                Ok((Some(PlaceFormat { x: (v / 10) as u8, y: (v % 10) as u8 }), d + 1))
            } else {
                Err(true)
            },
            None => Err(false),
        }
    } else {
        Err(false)
    }
}

/// What a `<手数> <指し手>` line says after its number.
///
/// No side: the side of a move, and which player an outcome word accuses,
/// come from whose turn the ply is, which the caller knows.
#[derive(Clone, Copy, Debug, PartialEq, Eq)]
pub enum NumberedBody {
    /// One of the outcome words.
    Outcome(&'static str),
    /// A move.
    Move {
        /// `None` for `同`: the square the move before went to.
        to: Option<PlaceFormat>,
        /// The piece that moved.
        piece: Kind,
        /// What the line said of promotion, `None` where it said nothing.
        promote: Option<bool>,
        /// `None` for a drop.
        from: Option<PlaceFormat>,
    },
}

impl View for NumberedBody {
    type V = BodyView;

    open spec fn view(&self) -> BodyView {
        match *self {
            NumberedBody::Outcome(w) => BodyView::Outcome(w@),
            NumberedBody::Move { to, piece, promote, from } => BodyView::Move { to, piece, promote, from },
        }
    }
}

fn move_body_exec(s: &Vec<char>, i: usize) -> (r: Result<(NumberedBody, usize), bool>)
    requires
        i <= s@.len(),
    ensures
        match r {
            Ok((b, e)) => move_body_at(s@, i as int) == Ok::<(BodyView, int), bool>((b@, e as int)) && e <= s@.len(),
            Err(x) => move_body_at(s@, i as int) == Err::<(BodyView, int), bool>(x),
        },
{
    let a = if char_at_exec(s, i, '▲') || char_at_exec(s, i, '△') { i + 1 } else { i };
    let (to, b) = match move_to_exec(s, a) {
        None => return Err(false),
        Some(found) => found,
    };
    proof { lemma_move_to_within(s@, a as int); }
    let (piece, c) = match piece_word_exec(s, b) {
        None => return Err(false),
        Some(found) => found,
    };
    let no_promotion = char_at_exec(s, c, '不') && char_at_exec(s, c + 1, '成');
    let promotion = char_at_exec(s, c, '成');
    let promote = if no_promotion { Some(false) } else if promotion { Some(true) } else { None };
    let e = if no_promotion { c + 2 } else if promotion { c + 1 } else { c };
    match origin_exec(s, e) {
        Ok((from, f)) => Ok((NumberedBody::Move { to, piece, promote, from }, f)),
        Err(broken) => Err(broken || promote.is_some()),
    }
}

fn move_time_format_exec(s: &Vec<char>, i: usize) -> (r: Option<(TimeFormat, usize)>)
    requires
        i <= s@.len(),
    ensures
        match r {
            Some((t, e)) => spec_move_time_format(s@, i as int) == Some((t, e as int)) && e <= s@.len(),
            None => spec_move_time_format(s@, i as int) is None,
        },
{
    if let Some((h, a)) = small_number_exec(s, i, 65535) {
        if char_at_exec(s, a, ':') {
            if let Some((m, b)) = small_number_exec(s, a + 1, 65535) {
                if char_at_exec(s, b, ':') {
                    if let Some((sec, c)) = small_number_exec(s, b + 1, 65535) {
                        return Some((TimeFormat { h: Some(h as u16), m: m as u16, s: sec as u16 }, c));
                    }
                }
            }
        }
    }
    match small_number_exec(s, i, 65535) {
        Some((m, a)) => if char_at_exec(s, a, ':') {
            match small_number_exec(s, a + 1, 65535) {
                Some((sec, b)) => Some((TimeFormat { h: None, m: m as u16, s: sec as u16 }, b)),
                None => None,
            }
        } else { None },
        None => None,
    }
}

fn move_time_exec(s: &Vec<char>, i: usize) -> (r: Option<(Time, usize)>)
    requires
        i <= s@.len(),
    ensures
        match r {
            Some((t, e)) => spec_move_time(s@, i as int) == Some((t, e as int)) && e <= s@.len(),
            None => spec_move_time(s@, i as int) is None,
        },
{
    if !char_at_exec(s, i, '(') {
        return None;
    }
    let (now, a) = match move_time_format_exec(s, skip_padding(s, i + 1)) {
        None => return None,
        Some(found) => found,
    };
    let slash = skip_padding(s, a);
    if !char_at_exec(s, slash, '/') {
        return None;
    }
    let (total, b) = match move_time_format_exec(s, skip_padding(s, slash + 1)) {
        None => return None,
        Some(found) => found,
    };
    let close = skip_padding(s, b);
    if char_at_exec(s, close, ')') { Some((Time { now, total }, close + 1)) } else { None }
}

/// Reads a `<手数> <指し手> [<消費時間>]` line at `i` (see [`numbered_line_at`]).
pub(crate) fn numbered_line_read(s: &Vec<char>, i: usize) -> (r: Result<(usize, NumberedBody, Option<Time>, usize), bool>)
    requires
        i <= s@.len(),
    ensures
        match r {
            Ok((ply, b, t, e)) => numbered_line_at(s@, i as int) == Ok::<(int, BodyView, Option<Time>, int), bool>((ply as int, b@, t, e as int))
                && e <= s@.len(),
            Err(x) => numbered_line_at(s@, i as int) == Err::<(int, BodyView, Option<Time>, int), bool>(x),
        },
{
    let p = skip_padding(s, i);
    let (ply, d) = match small_number_exec(s, p, usize::MAX) {
        None => return Err(false),
        Some(found) => found,
    };
    let q = skip_padding(s, d);
    let (body, e) = match outcome_word_exec(s, q) {
        Some(w) => {
            let n = w.unicode_len();
            let slen = s.len();
            assert(lit_at(s@, q as int, w@));
            assert(q + n <= slen);
            (NumberedBody::Outcome(w), q + n)
        },
        None => match move_body_exec(s, q) {
            Err(x) => return Err(x),
            Ok(found) => found,
        },
    };
    let r = skip_padding(s, e);
    match move_time_exec(s, r) {
        Some((t, f)) => Ok((ply, body, Some(t), f)),
        None => Ok((ply, body, None, r)),
    }
}

/// Reads a time `<h>:<m>:<s>` or `<m>:<s>` at the head of `input` (see
/// [`spec_move_time_format`]): the text after it and the time.
pub fn move_time_format(input: &str) -> (r: Result<(&str, TimeFormat), Unreadable>)
    ensures
        match spec_move_time_format(input@, 0) {
            Some((t, e)) => r matches Ok((rest, u)) && rest@ == input@.skip(e) && u == t,
            None => r is Err,
        },
{
    let s = crate::parser::csa_text::chars_of(input);
    match move_time_format_exec(&s, 0) {
        None => Err(Unreadable),
        Some((t, e)) => {
            let rest = input.substring_char(e, input.unicode_len());
            assert(rest@ =~= input@.skip(e as int));
            Ok((rest, t))
        },
    }
}

/// Reads the `( 0:03/00:00:03)` of a KIF move line at the head of `input`
/// (see [`spec_move_time`]): the text after it and the two times.
pub fn move_time(input: &str) -> (r: Result<(&str, Time), Unreadable>)
    ensures
        match spec_move_time(input@, 0) {
            Some((t, e)) => r matches Ok((rest, u)) && rest@ == input@.skip(e) && u == t,
            None => r is Err,
        },
{
    let s = crate::parser::csa_text::chars_of(input);
    match move_time_exec(&s, 0) {
        None => Err(Unreadable),
        Some((t, e)) => {
            let rest = input.substring_char(e, input.unicode_len());
            assert(rest@ =~= input@.skip(e as int));
            Ok((rest, t))
        },
    }
}

/// Reads a `<手数> <指し手> [<消費時間>]` line at the head of `input` up to
/// where its end is left to the caller (see [`numbered_line_at`]): the text
/// after it, the ply, what the line says and its time. A line of this shape
/// that cannot be read is refused as broken, any other text as not this
/// shape.
pub fn numbered_line(input: &str) -> (r: Result<(&str, (usize, NumberedBody, Option<Time>)), Verdict>)
    ensures
        match numbered_line_at(input@, 0) {
            Ok((ply, b, t, e)) => r matches Ok((rest, (n, c, u))) && rest@ == input@.skip(e) && n == ply && c@ == b && u == t,
            Err(true) => r == Err::<(&str, (usize, NumberedBody, Option<Time>)), Verdict>(Verdict::Broken),
            Err(false) => r == Err::<(&str, (usize, NumberedBody, Option<Time>)), Verdict>(Verdict::NotThis),
        },
{
    let s = crate::parser::csa_text::chars_of(input);
    match numbered_line_read(&s, 0) {
        Err(true) => Err(Verdict::Broken),
        Err(false) => Err(Verdict::NotThis),
        Ok((ply, body, time, e)) => {
            let rest = input.substring_char(e, input.unicode_len());
            assert(rest@ =~= input@.skip(e as int));
            Ok((rest, (ply, body, time)))
        },
    }
}

fn numbered_line_exec(l: &Vec<char>) -> (v: Verdict)
    ensures
        v == spec_numbered_line(l@),
{
    match numbered_line_read(l, 0) {
        Ok(_) => Verdict::Read,
        Err(true) => Verdict::Broken,
        Err(false) => Verdict::NotThis,
    }
}

pub(crate) fn opens_a_numbered_line_at(s: &Vec<char>, i: usize) -> (b: bool)
    requires
        i <= s@.len(),
    ensures
        b == spec_opens_a_numbered_line(s@, i as int),
{
    let line = line_from(s, i);
    let p = skip_padding(&line, 0);
    let (a, _) = read_decimal(&line, p);
    if a == p {
        false
    } else if a < line.len() && is_padding(line[a]) {
        skip_padding(&line, a) < line.len()
    } else {
        match numbered_line_exec(&line) {
            Verdict::NotThis => false,
            _ => true,
        }
    }
}

/// Where the relative word at `i` ends, if there is one: `左上` `左寄` `左引`
/// `右上` `右寄` `右引` `左` `直` `右` `上` (or `行`) `寄` `引` `打`.
pub open spec fn relative_end(s: Seq<char>, i: int) -> int {
    if (char_at(s, i, '左') || char_at(s, i, '右')) && (char_at(s, i + 1, '上') || char_at(s, i + 1, '寄') || char_at(s, i + 1, '引')) {
        i + 2
    } else if char_at(s, i, '左') || char_at(s, i, '直') || char_at(s, i, '右') || char_at(s, i, '上')
        || char_at(s, i, '行') || char_at(s, i, '寄') || char_at(s, i, '引') || char_at(s, i, '打') {
        i + 1
    } else {
        i
    }
}

/// Where the promotion word at `i` ends, if there is one: `不成` or `生`
/// (did not promote), `成` (did).
pub open spec fn promotion_end(s: Seq<char>, i: int) -> int {
    if char_at(s, i, '不') && char_at(s, i + 1, '成') {
        i + 2
    } else if char_at(s, i, '生') || char_at(s, i, '成') {
        i + 1
    } else {
        i
    }
}

/// Where the run of ASCII spaces and tabs from `i` ends.
pub open spec fn space_end(s: Seq<char>, i: int) -> int
    decreases s.len() - i,
{
    if 0 <= i < s.len() && (s[i] == ' ' || s[i] == '\t') {
        space_end(s, i + 1)
    } else {
        i
    }
}

/// A comment (`*`) or bookmark (`&`) line at `i`, past its padding: where the
/// line after it starts.
pub open spec fn move_comment_line(s: Seq<char>, i: int) -> Option<int> {
    let k = padding_end(s, i);
    if char_at(s, k, '*') || char_at(s, k, '&') {
        eol_at(s, line_stop(s, k + 1))
    } else {
        None
    }
}

/// Where the comment and bookmark lines from `i` end.
pub open spec fn comments_end(s: Seq<char>, i: int) -> int
    decreases s.len() - i,
{
    match move_comment_line(s, i) {
        Some(e) => if i < e <= s.len() { comments_end(s, e) } else { e },
        None => i,
    }
}

/// A KI2 move at `i`: a side mark, where the move goes, the piece, a relative
/// word and a promotion word if they are there, then spaces and tabs, a line
/// ending if there is one, and the comment lines under the move. Where it
/// ends.
pub open spec fn single_move(s: Seq<char>, i: int) -> Option<int> {
    if !side_mark_at(s, i) {
        None
    } else {
        match move_to(s, i + 1) {
            None => None,
            Some((_, b)) => match piece_word(s, b) {
                None => None,
                Some((_, c)) => {
                    let d = space_end(s, promotion_end(s, relative_end(s, c)));
                    let e = match line_ending_at(s, d) { Some(e) => e, None => d };
                    Some(comments_end(s, e))
                },
            },
        }
    }
}

/// Where a run of KI2 moves from `i` ends; `None` without one move.
pub open spec fn move_run_end(s: Seq<char>, i: int) -> Option<int>
    decreases s.len() - i,
{
    match single_move(s, i) {
        None => None,
        Some(j) => if i < j <= s.len() {
            match move_run_end(s, j) {
                Some(k) => Some(k),
                None => Some(j),
            }
        } else {
            Some(j)
        },
    }
}

/// Whether the line at `i` opens with a side mark and is a run of KI2 moves
/// to its end, padding aside.
pub open spec fn spec_a_move_run_fills_the_line(s: Seq<char>, i: int) -> bool {
    let line = line_at(s, i);
    &&& side_mark_at(s, i)
    &&& move_run_end(line, 0) matches Some(e) && padding_end(line, e) == line.len()
}

/// The two formats whose lines the readers look for.
#[derive(Clone, Copy, Debug, PartialEq, Eq, Structural)]
pub enum LineShapes {
    /// KIF: numbered move lines.
    Kif,
    /// KI2: runs of `▲`/`△` moves.
    Ki2,
}

/// Whether a line of `shapes` opens at `i`: a shape both formats share, or
/// the format's own move line.
pub open spec fn spec_opens_a_line(shapes: LineShapes, s: Seq<char>, i: int) -> bool {
    spec_opens_a_shared_line(s, i) || match shapes {
        LineShapes::Kif => spec_opens_a_numbered_line(s, i),
        LineShapes::Ki2 => spec_a_move_run_fills_the_line(s, i),
    }
}

/// Whether a `変化：<N>手` header at `i` is the whole of its line.
pub open spec fn spec_a_branch_header_fills_the_line(s: Seq<char>, i: int) -> bool {
    match spec_branch_header_ply(s, i) {
        Some((r, _)) => eol_at(s, padding_end(s, r)) is Some,
        None => false,
    }
}

/// What a note opens with.
pub open spec fn is_note_marker(c: char) -> bool {
    c == '※' || c == '（' || c == '(' || c == '【' || c == '[' || c == '「' || c == '〈' || c == '＜'
}

/// Whether a line of `shapes` opens at `i`, where a line has already ended: a
/// `変化：<N>手` header has to be the whole of its line to count.
pub open spec fn opens_after_a_line(shapes: LineShapes, s: Seq<char>, i: int) -> bool {
    if spec_opens_a_branch_header(s, i) {
        spec_a_branch_header_fills_the_line(s, i)
    } else {
        spec_opens_a_line(shapes, s, i)
    }
}

/// Whether `tail`, what is left of a line a reader has finished with, begins
/// the line that should have been under it: past the padding, or past the
/// one character that stands where the newline was lost, unless that
/// character opens a note or ends the line.
pub open spec fn spec_begins_the_line_below(shapes: LineShapes, tail: Seq<char>) -> bool {
    let h = padding_end(tail, 0);
    ||| opens_after_a_line(shapes, tail, h)
    ||| h < tail.len() && !is_note_marker(tail[h]) && !is_line_end_char(tail[h])
        && opens_after_a_line(shapes, tail, padding_end(tail, h + 1))
}

pub(crate) fn relative_end_exec(s: &Vec<char>, i: usize) -> (e: usize)
    requires
        i <= s@.len(),
    ensures
        e == relative_end(s@, i as int),
{
    if (char_at_exec(s, i, '左') || char_at_exec(s, i, '右'))
        && (char_at_exec(s, i + 1, '上') || char_at_exec(s, i + 1, '寄') || char_at_exec(s, i + 1, '引')) {
        i + 2
    } else if char_at_exec(s, i, '左') || char_at_exec(s, i, '直') || char_at_exec(s, i, '右') || char_at_exec(s, i, '上')
        || char_at_exec(s, i, '行') || char_at_exec(s, i, '寄') || char_at_exec(s, i, '引') || char_at_exec(s, i, '打') {
        i + 1
    } else {
        i
    }
}

pub(crate) fn promotion_end_exec(s: &Vec<char>, i: usize) -> (e: usize)
    requires
        i <= s@.len(),
    ensures
        e == promotion_end(s@, i as int),
{
    if char_at_exec(s, i, '不') && char_at_exec(s, i + 1, '成') {
        i + 2
    } else if char_at_exec(s, i, '生') || char_at_exec(s, i, '成') {
        i + 1
    } else {
        i
    }
}

pub(crate) fn space_end_exec(s: &Vec<char>, i: usize) -> (e: usize)
    requires
        i <= s@.len(),
    ensures
        e == space_end(s@, i as int),
        i <= e <= s@.len(),
{
    let mut j = i;
    while j < s.len() && (s[j] == ' ' || s[j] == '\t')
        invariant
            i <= j <= s@.len(),
            space_end(s@, i as int) == space_end(s@, j as int),
        decreases s@.len() - j,
    {
        j = j + 1;
    }
    j
}

pub(crate) fn line_stop_exec(s: &Vec<char>, i: usize) -> (e: usize)
    requires
        i <= s@.len(),
    ensures
        e == line_stop(s@, i as int),
        i <= e <= s@.len(),
{
    let mut j = i;
    while j < s.len() && !(s[j] == '\n' || s[j] == '\r')
        invariant
            i <= j <= s@.len(),
            line_stop(s@, i as int) == line_stop(s@, j as int),
        decreases s@.len() - j,
    {
        j = j + 1;
    }
    j
}

pub(crate) fn move_comment_line_exec(s: &Vec<char>, i: usize) -> (r: Option<usize>)
    requires
        i <= s@.len(),
    ensures
        match r {
            Some(e) => move_comment_line(s@, i as int) == Some(e as int) && e <= s@.len(),
            None => move_comment_line(s@, i as int) is None,
        },
{
    let k = skip_padding(s, i);
    if char_at_exec(s, k, '*') || char_at_exec(s, k, '&') {
        let stop = line_stop_exec(s, k + 1);
        match eol_exec(s, stop) {
            Some(e) => {
                proof { lemma_eol_within(s@, stop as int); }
                Some(e)
            },
            None => None,
        }
    } else {
        None
    }
}

pub(crate) proof fn lemma_eol_within(s: Seq<char>, i: int)
    requires
        0 <= i <= s.len(),
        eol_at(s, i) is Some,
    ensures
        i <= eol_at(s, i).unwrap() <= s.len(),
{
}

pub(crate) fn comments_end_exec(s: &Vec<char>, i: usize) -> (e: usize)
    requires
        i <= s@.len(),
    ensures
        e == comments_end(s@, i as int),
        e <= s@.len(),
{
    let mut j = i;
    loop
        invariant
            j <= s@.len(),
            comments_end(s@, i as int) == comments_end(s@, j as int),
        decreases s@.len() - j,
    {
        match move_comment_line_exec(s, j) {
            None => return j,
            Some(e) => {
                if !(j < e) {
                    return e;
                }
                j = e;
            },
        }
    }
}

pub(crate) fn single_move_exec(s: &Vec<char>, i: usize) -> (r: Option<usize>)
    requires
        i <= s@.len(),
    ensures
        match r {
            Some(e) => single_move(s@, i as int) == Some(e as int) && e <= s@.len(),
            None => single_move(s@, i as int) is None,
        },
{
    if !(char_at_exec(s, i, '▲') || char_at_exec(s, i, '△')) {
        return None;
    }
    let b = match move_to_exec(s, i + 1) {
        None => return None,
        Some((_, b)) => b,
    };
    proof { lemma_move_to_within(s@, i + 1); }
    let c = match piece_word_exec(s, b) {
        None => return None,
        Some((_, c)) => c,
    };
    let d = space_end_exec(s, promotion_end_exec(s, relative_end_exec(s, c)));
    let e = match line_ending_exec(s, d) {
        Some(e) => e,
        None => d,
    };
    Some(comments_end_exec(s, e))
}

proof fn lemma_move_to_within(s: Seq<char>, i: int)
    requires
        0 <= i <= s.len(),
        move_to(s, i) is Some,
    ensures
        move_to(s, i).unwrap().1 <= s.len(),
{
    if char_at(s, i, '同') {
        lemma_padding_within(s, i + 1);
    }
}

pub(crate) proof fn lemma_padding_within(s: Seq<char>, i: int)
    requires
        0 <= i <= s.len(),
    ensures
        i <= padding_end(s, i) <= s.len(),
    decreases s.len() - i,
{
    if 0 <= i < s.len() && spec_is_padding(s[i]) {
        lemma_padding_within(s, i + 1);
    }
}

pub(crate) fn move_run_end_exec(s: &Vec<char>, i: usize) -> (r: Option<usize>)
    requires
        i <= s@.len(),
    ensures
        match r {
            Some(e) => move_run_end(s@, i as int) == Some(e as int),
            None => move_run_end(s@, i as int) is None,
        },
{
    let first = match single_move_exec(s, i) {
        None => return None,
        Some(j) => j,
    };
    if !(i < first) {
        return Some(first);
    }
    let mut j = first;
    loop
        invariant
            i < j <= s@.len(),
            move_run_end(s@, i as int) == (match move_run_end(s@, j as int) {
                Some(k) => Some(k),
                None => Some(j as int),
            }),
        decreases s@.len() - j,
    {
        match single_move_exec(s, j) {
            None => return Some(j),
            Some(k) => {
                if !(j < k) {
                    return Some(k);
                }
                j = k;
            },
        }
    }
}

fn a_move_run_fills_the_line_at(s: &Vec<char>, i: usize) -> (b: bool)
    requires
        i <= s@.len(),
    ensures
        b == spec_a_move_run_fills_the_line(s@, i as int),
{
    if !(char_at_exec(s, i, '▲') || char_at_exec(s, i, '△')) {
        return false;
    }
    let line = line_from(s, i);
    match move_run_end_exec(&line, 0) {
        None => false,
        Some(e) => {
            if e > line.len() {
                return false;
            }
            skip_padding(&line, e) == line.len()
        },
    }
}

fn opens_a_line_at(shapes: LineShapes, s: &Vec<char>, i: usize) -> (b: bool)
    requires
        i <= s@.len(),
    ensures
        b == spec_opens_a_line(shapes, s@, i as int),
{
    opens_a_shared_line_at(s, i) || match shapes {
        LineShapes::Kif => opens_a_numbered_line_at(s, i),
        LineShapes::Ki2 => a_move_run_fills_the_line_at(s, i),
    }
}

fn opens_after_a_line_at(shapes: LineShapes, s: &Vec<char>, i: usize) -> (b: bool)
    requires
        i <= s@.len(),
    ensures
        b == opens_after_a_line(shapes, s@, i as int),
{
    if opens_a_branch_header_at(s, i) {
        match branch_header_at(s, i) {
            Some((r, _)) => eol_exec(s, skip_padding(s, r)).is_some(),
            None => false,
        }
    } else {
        opens_a_line_at(shapes, s, i)
    }
}

fn is_note_marker_exec(c: char) -> (b: bool)
    ensures
        b == is_note_marker(c),
{
    c == '※' || c == '（' || c == '(' || c == '【' || c == '[' || c == '「' || c == '〈' || c == '＜'
}

/// Whether the characters `tail` begin the line below (see
/// [`spec_begins_the_line_below`]).
pub(crate) fn begins_the_line_below_chars(shapes: LineShapes, s: &Vec<char>) -> (b: bool)
    ensures
        b == spec_begins_the_line_below(shapes, s@),
{
    let h = skip_padding(s, 0);
    if opens_after_a_line_at(shapes, s, h) {
        return true;
    }
    if h < s.len() && !is_note_marker_exec(s[h]) && !(s[h] == '\n' || s[h] == '\r') {
        let k = skip_padding(s, h + 1);
        opens_after_a_line_at(shapes, s, k)
    } else {
        false
    }
}

/// Whether `tail`, what is left of a line a reader has finished with, begins
/// the line that should have been under it (see
/// [`spec_begins_the_line_below`]).
///
/// What follows a finished line is either the line below, whose newline was
/// lost, or an annotation the formats do not define; only the first means
/// the record is missing something.
pub fn begins_the_line_below(shapes: LineShapes, tail: &str) -> (b: bool)
    ensures
        b == spec_begins_the_line_below(shapes, tail@),
{
    let s = crate::parser::csa_text::chars_of(tail);
    begins_the_line_below_chars(shapes, &s)
}

/// Whether a word on a line ends before `c`: padding, a line ending, or the
/// mark a note opens with.
pub open spec fn spec_ends_a_word(c: char) -> bool {
    spec_is_padding(c) || is_line_end_char(c) || is_note_marker(c)
}

/// Whether a word on a line ends before `c` (see [`spec_ends_a_word`]).
pub fn ends_a_word(c: char) -> (b: bool)
    ensures
        b == spec_ends_a_word(c),
{
    is_padding(c) || c == '\n' || c == '\r' || is_note_marker_exec(c)
}

/// Whether `head` opens with a `変化：<N>手` header that stands alone as a
/// word: nothing after it, or something that ends a word. Such a header with
/// no moves under it is a branch that went missing, worth an error of its own.
pub fn an_empty_block_here_is_worth_reporting(head: &str) -> (b: bool)
    ensures
        b == (spec_branch_header_ply(head@, 0) matches Some((r, _))
            && (r == head@.len() || spec_ends_a_word(head@[r]))),
{
    let s = crate::parser::csa_text::chars_of(head);
    match branch_header_at(&s, 0) {
        None => false,
        Some((r, _)) => r == s.len() || ends_a_word(s[r]),
    }
}

/// Reads a line with nothing on it but padding at the head of `input`: the
/// text after its line ending. The end of the text is no line ending here.
pub fn blank_line(input: &str) -> (r: Result<&str, Unreadable>)
    ensures
        match line_ending_at(input@, padding_end(input@, 0)) {
            Some(e) => r matches Ok(rest) && rest@ == input@.skip(e),
            None => r is Err,
        },
{
    let s = crate::parser::csa_text::chars_of(input);
    let p = skip_padding(&s, 0);
    match line_ending_exec(&s, p) {
        None => Err(Unreadable),
        Some(e) => {
            proof { lemma_padding_within(s@, 0); }
            let rest = input.substring_char(e, input.unicode_len());
            assert(rest@ =~= input@.skip(e as int));
            Ok(rest)
        },
    }
}
} // verus!
