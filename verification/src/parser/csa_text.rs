//! CSA text into a record.
//!
//! The `csa` crate reads the text; what it read is written back out by its own
//! `Display` as CSA in one fixed layout, and that layout is what is turned into
//! a JKF here: the version line, the player and game fields, the starting
//! position (a board or `PI`, then pieces placed and put in hand, then the side
//! to move), and the moves with their times.

use vstd::prelude::*;
use crate::error::ParseError;
use crate::handicap::{board_is, hirate_piece};
use crate::jkf::{Color, Hand, Initial, JsonKifuFormat, Kind, MoveFormat, MoveMoveFormat, MoveSpecial, Piece, PlaceFormat, Preset, StateFormat, Time, TimeFormat, spec_csa_word, spec_unpromoted};
use crate::text::{push_char, seq_starts_with};
use crate::normalizer::normalized;
use crate::parser::{spec_without_bom, without_a_byte_order_mark};

verus! {

/// What `csa::parse_csa` reads in a text, written back out by `GameRecord`'s
/// `Display`; or the text of the error it gave.
pub uninterp spec fn csa_reading(s: Seq<char>) -> Result<Seq<char>, Seq<char>>;

/// Whether `c` is an ASCII digit.
pub open spec fn is_digit(c: char) -> bool {
    '0' <= c <= '9'
}

/// The value of an ASCII digit.
pub open spec fn digit_value(c: char) -> int {
    c as int - '0' as int
}

/// Where the digits from `i` end.
pub open spec fn digit_run_end(s: Seq<char>, i: int) -> int
    decreases s.len() - i,
{
    if 0 <= i < s.len() && is_digit(s[i]) { digit_run_end(s, i + 1) } else { i }
}

/// The number the digits `s[i..j]` spell.
pub open spec fn run_value(s: Seq<char>, i: int, j: int) -> int
    decreases j - i,
{
    if j <= i { 0 } else { run_value(s, i, j - 1) * 10 + digit_value(s[j - 1]) }
}

/// Whether the digits right after a `T` at `i` spell a number past what a
/// `u64` holds: a time the `csa` crate reads into a `u64` and cannot.
pub open spec fn long_number_at(s: Seq<char>, i: int) -> bool {
    1 <= i <= s.len() && s[i - 1] == 'T' && run_value(s, i, digit_run_end(s, i)) > u64::MAX
}

/// The number two digits at `i` spell.
pub open spec fn two_at(s: Seq<char>, i: int) -> int {
    digit_value(s[i]) * 10 + digit_value(s[i + 1])
}

/// The number four digits at `i` spell.
pub open spec fn four_at(s: Seq<char>, i: int) -> int {
    two_at(s, i) * 100 + two_at(s, i + 2)
}

/// Whether a date `YYYY/MM/DD` starts at `i`, right after a colon (as the
/// value of a `$` field), with a month 1-12 and a day 1-31: what the `csa`
/// crate reads as a date.
pub open spec fn date_at(s: Seq<char>, i: int) -> bool {
    &&& 1 <= i && i + 10 <= s.len() && s[i - 1] == ':'
    &&& is_digit(s[i]) && is_digit(s[i + 1]) && is_digit(s[i + 2]) && is_digit(s[i + 3])
    &&& s[i + 4] == '/' && is_digit(s[i + 5]) && is_digit(s[i + 6])
    &&& s[i + 7] == '/' && is_digit(s[i + 8]) && is_digit(s[i + 9])
    &&& 1 <= two_at(s, i + 5) <= 12
    &&& 1 <= two_at(s, i + 8) <= 31
}

/// Whether `c` is a sign that `str::parse` takes in front of a number.
pub open spec fn is_sign(c: char) -> bool {
    c == '+' || c == '-'
}

/// Whether a date with a sign in front of its year, month or day starts at
/// `i` (`+023/02/29`, `2023/+4/31`): the `csa` crate reads each part with
/// `str::parse`, which takes the sign, and such a date escapes the checks
/// that [`date_at`] stands for. Only right after a colon, as [`date_at`].
pub open spec fn signed_date_at(s: Seq<char>, i: int) -> bool {
    &&& 1 <= i && i + 10 <= s.len() && s[i - 1] == ':'
    &&& (is_digit(s[i]) || is_sign(s[i])) && is_digit(s[i + 1]) && is_digit(s[i + 2]) && is_digit(s[i + 3])
    &&& s[i + 4] == '/' && (is_digit(s[i + 5]) || is_sign(s[i + 5])) && is_digit(s[i + 6])
    &&& s[i + 7] == '/' && (is_digit(s[i + 8]) || is_sign(s[i + 8])) && is_digit(s[i + 9])
    &&& (is_sign(s[i]) || is_sign(s[i + 5]) || is_sign(s[i + 8]))
}

/// The days of a month of the Gregorian calendar.
pub open spec fn days_in_month(year: int, month: int) -> int {
    if month == 2 {
        if year % 4 == 0 && (year % 100 != 0 || year % 400 == 0) { 29 } else { 28 }
    } else if month == 4 || month == 6 || month == 9 || month == 11 {
        30
    } else {
        31
    }
}

/// Whether the text is free of what makes the `csa` crate panic rather than
/// report: a date naming a day its month does not have, or with a sign in
/// front of a part, after a colon; and a time after `T` larger than a `u64`
/// holds. Any text that looks like one of these there is left out, on
/// whatever line it stands.
pub open spec fn csa_text_is_readable(s: Seq<char>) -> bool {
    &&& forall|i: int| !#[trigger] long_number_at(s, i)
    &&& forall|i: int| !#[trigger] signed_date_at(s, i)
    &&& forall|i: int| #[trigger] date_at(s, i) ==> two_at(s, i + 8) <= days_in_month(four_at(s, i), two_at(s, i + 5))
}

/// Calls `csa::parse_csa` and writes the record it reads with
/// `GameRecord`'s `Display`; the error's `Display` when it refuses the text.
#[verifier::external_body]
fn csa_record_text(s: &str) -> (r: Result<String, String>)
    requires
        csa_text_is_readable(s@),
    ensures
        match r {
            Ok(t) => csa_reading(s@) == Ok::<Seq<char>, Seq<char>>(t@),
            Err(e) => csa_reading(s@) == Err::<Seq<char>, Seq<char>>(e@),
        },
{
    match ::csa::parse_csa(s) {
        Ok(record) => Ok(record.to_string()),
        Err(e) => Err(e.to_string()),
    }
}

fn digit_of(c: char) -> (d: i64)
    requires
        is_digit(c),
    ensures
        d == digit_value(c),
        0 <= d <= 9,
{
    if c == '0' { 0 } else if c == '1' { 1 } else if c == '2' { 2 } else if c == '3' { 3 }
    else if c == '4' { 4 } else if c == '5' { 5 } else if c == '6' { 6 } else if c == '7' { 7 }
    else if c == '8' { 8 } else { 9 }
}

fn is_digit_exec(c: char) -> (b: bool)
    ensures
        b == is_digit(c),
{
    '0' <= c && c <= '9'
}

/// The characters of a text, one by one.
pub fn chars_of(s: &str) -> (v: Vec<char>)
    ensures
        v@ == s@,
{
    let n = s.unicode_len();
    let mut v: Vec<char> = Vec::new();
    let mut i: usize = 0;
    while i < n
        invariant
            n == s@.len(),
            i <= n,
            v@ == s@.take(i as int),
        decreases n - i,
    {
        v.push(s.get_char(i));
        assert(v@ =~= s@.take(i + 1));
        i = i + 1;
    }
    assert(s@.take(n as int) =~= s@);
    v
}

fn date_ok(s: &Vec<char>, i: usize) -> (b: bool)
    ensures
        b == (date_at(s@, i as int) ==> two_at(s@, i + 8) <= days_in_month(four_at(s@, i as int), two_at(s@, i + 5))),
{
    if i == 0 || i > s.len() || s.len() - i < 10 || s[i - 1] != ':' {
        return true;
    }
    if !(is_digit_exec(s[i]) && is_digit_exec(s[i + 1]) && is_digit_exec(s[i + 2]) && is_digit_exec(s[i + 3])
        && s[i + 4] == '/' && is_digit_exec(s[i + 5]) && is_digit_exec(s[i + 6])
        && s[i + 7] == '/' && is_digit_exec(s[i + 8]) && is_digit_exec(s[i + 9])) {
        return true;
    }
    let year = (digit_of(s[i]) * 10 + digit_of(s[i + 1])) * 100 + digit_of(s[i + 2]) * 10 + digit_of(s[i + 3]);
    let month = digit_of(s[i + 5]) * 10 + digit_of(s[i + 6]);
    let day = digit_of(s[i + 8]) * 10 + digit_of(s[i + 9]);
    if month < 1 || month > 12 || day < 1 || day > 31 {
        return true;
    }
    let days: i64 = if month == 2 {
        if year % 4 == 0 && (year % 100 != 0 || year % 400 == 0) { 29 } else { 28 }
    } else if month == 4 || month == 6 || month == 9 || month == 11 {
        30
    } else {
        31
    };
    day <= days
}

fn is_sign_exec(c: char) -> (b: bool)
    ensures
        b == is_sign(c),
{
    c == '+' || c == '-'
}

fn signed_date_exec(s: &Vec<char>, i: usize) -> (b: bool)
    ensures
        b == signed_date_at(s@, i as int),
{
    if i == 0 || i > s.len() || s.len() - i < 10 || s[i - 1] != ':' {
        return false;
    }
    (is_digit_exec(s[i]) || is_sign_exec(s[i])) && is_digit_exec(s[i + 1]) && is_digit_exec(s[i + 2]) && is_digit_exec(s[i + 3])
        && s[i + 4] == '/' && (is_digit_exec(s[i + 5]) || is_sign_exec(s[i + 5])) && is_digit_exec(s[i + 6])
        && s[i + 7] == '/' && (is_digit_exec(s[i + 8]) || is_sign_exec(s[i + 8])) && is_digit_exec(s[i + 9])
        && (is_sign_exec(s[i]) || is_sign_exec(s[i + 5]) || is_sign_exec(s[i + 8]))
}

/// More digits spell no smaller a number.
proof fn lemma_run_value_grows(s: Seq<char>, i: int, j: int, j2: int)
    requires
        0 <= i <= j <= j2 <= s.len(),
        forall|m: int| i <= m < j2 ==> #[trigger] is_digit(s[m]),
    ensures
        run_value(s, i, j2) >= run_value(s, i, j),
        run_value(s, i, j2) >= 0,
    decreases j2 - i,
{
    if j2 > i {
        assert(is_digit(s[j2 - 1]));
        if j2 > j {
            lemma_run_value_grows(s, i, j, j2 - 1);
        } else {
            lemma_run_value_grows(s, i, j2 - 1, j2 - 1);
        }
    }
}

proof fn lemma_digit_run(s: Seq<char>, i: int, k: int)
    requires
        0 <= i <= k <= s.len(),
    ensures
        k <= digit_run_end(s, k) <= s.len(),
        forall|m: int| k <= m < digit_run_end(s, k) ==> #[trigger] is_digit(s[m]),
    decreases s.len() - k,
{
    if k < s.len() && is_digit(s[k]) {
        lemma_digit_run(s, i, k + 1);
    }
}

fn long_number_exec(v: &Vec<char>, i: usize) -> (b: bool)
    ensures
        b == long_number_at(v@, i as int),
{
    if i == 0 || i > v.len() || v[i - 1] != 'T' {
        return false;
    }
    let mut k: usize = i;
    let mut val: u64 = 0;
    while k < v.len() && is_digit_exec(v[k])
        invariant
            1 <= i <= k <= v@.len(),
            v@[i - 1] == 'T',
            val as int == run_value(v@, i as int, k as int),
            digit_run_end(v@, i as int) == digit_run_end(v@, k as int),
            forall|m: int| i <= m < k ==> #[trigger] is_digit(v@[m]),
        decreases v@.len() - k,
    {
        let d = (v[k] as u32 - '0' as u32) as u64;
        assert(d as int == digit_value(v@[k as int]));
        proof {
            lemma_digit_run(v@, i as int, k as int + 1);
            let e = digit_run_end(v@, k as int + 1);
            assert(digit_run_end(v@, k as int) == e);
            assert forall|m: int| i <= m < e implies #[trigger] is_digit(v@[m]) by {
                if m > k {
                    assert(is_digit(v@[m]));
                }
            }
            lemma_run_value_grows(v@, i as int, k as int + 1, e);
        }
        assert(run_value(v@, i as int, k as int + 1) == val * 10 + d);
        match val.checked_mul(10) {
            None => {
                assert(val * 10 > u64::MAX);
                return true;
            },
            Some(x) => match x.checked_add(d) {
                None => {
                    assert(x + d > u64::MAX);
                    return true;
                },
                Some(y) => val = y,
            },
        }
        k = k + 1;
    }
    false
}

/// Whether the text is free of what makes the `csa` crate panic (see
/// [`csa_text_is_readable`]).
pub fn csa_text_readable(s: &str) -> (b: bool)
    ensures
        b == csa_text_is_readable(s@),
{
    let v = chars_of(s);
    let n = v.len();
    let mut i: usize = 0;
    while i < n
        invariant
            n == v@.len(),
            v@ == s@,
            i <= n,
            forall|j: int| 0 <= j < i ==> !#[trigger] long_number_at(v@, j),
            forall|j: int| 0 <= j < i ==> !#[trigger] signed_date_at(v@, j),
            forall|j: int| 0 <= j < i ==> (#[trigger] date_at(v@, j) ==> two_at(v@, j + 8) <= days_in_month(four_at(v@, j), two_at(v@, j + 5))),
        decreases n - i,
    {
        if long_number_exec(&v, i) || signed_date_exec(&v, i) || !date_ok(&v, i) {
            return false;
        }
        i = i + 1;
    }
    proof {
        assert forall|j: int| !#[trigger] long_number_at(v@, j) by {
            if long_number_at(v@, j) {
                assert(0 <= j < n);
            }
        }
        assert forall|j: int| !#[trigger] signed_date_at(v@, j) by {
            if signed_date_at(v@, j) {
                assert(0 <= j < n);
            }
        }
        assert forall|j: int| #[trigger] date_at(v@, j) implies two_at(v@, j + 8) <= days_in_month(four_at(v@, j), two_at(v@, j + 5)) by {
            assert(0 <= j < n);
        }
    }
    true
}


/// The lines of `t` up to character `n`, and the line still open there.
pub open spec fn split_upto(t: Seq<char>, n: int) -> (Seq<Seq<char>>, Seq<char>)
    decreases n,
{
    if n <= 0 {
        (Seq::empty(), Seq::empty())
    } else {
        let (done, cur) = split_upto(t, n - 1);
        if t[n - 1] == '\n' {
            (done.push(cur), Seq::empty())
        } else {
            (done, cur.push(t[n - 1]))
        }
    }
}

/// The lines of `t`, each without its `\n`; a last line without one counts.
pub open spec fn lines_of(t: Seq<char>) -> Seq<Seq<char>> {
    let (done, cur) = split_upto(t, t.len() as int);
    if cur.len() > 0 { done.push(cur) } else { done }
}

/// The lines of a text.
pub fn split_lines(t: &Vec<char>) -> (ls: Vec<Vec<char>>)
    ensures
        ls@.len() == lines_of(t@).len(),
        forall|k: int| 0 <= k < ls@.len() ==> #[trigger] ls@[k]@ == lines_of(t@)[k],
{
    let mut ls: Vec<Vec<char>> = Vec::new();
    let mut cur: Vec<char> = Vec::new();
    let mut i: usize = 0;
    while i < t.len()
        invariant
            i <= t@.len(),
            ls@.len() == split_upto(t@, i as int).0.len(),
            forall|k: int| 0 <= k < ls@.len() ==> #[trigger] ls@[k]@ == split_upto(t@, i as int).0[k],
            cur@ == split_upto(t@, i as int).1,
        decreases t@.len() - i,
    {
        if t[i] == '\n' {
            let done = cur;
            cur = Vec::new();
            ls.push(done);
        } else {
            cur.push(t[i]);
        }
        i = i + 1;
    }
    if cur.len() > 0 {
        ls.push(cur);
    }
    ls
}

/// A header line of the fixed layout, as the JKF key and the value.
pub open spec fn meta_entry(line: Seq<char>) -> Option<(Seq<char>, Seq<char>)> {
    if seq_starts_with(line, "N+"@) {
        Some(("先手"@, line.skip(2)))
    } else if seq_starts_with(line, "N-"@) {
        Some(("後手"@, line.skip(2)))
    } else if seq_starts_with(line, "$EVENT:"@) {
        Some(("棋戦"@, line.skip(7)))
    } else if seq_starts_with(line, "$SITE:"@) {
        Some(("場所"@, line.skip(6)))
    } else if seq_starts_with(line, "$START_TIME:"@) {
        Some(("開始日時"@, line.skip(12)))
    } else if seq_starts_with(line, "$END_TIME:"@) {
        Some(("終了日時"@, line.skip(10)))
    } else if seq_starts_with(line, "$TIME_LIMIT:"@) {
        Some(("持ち時間"@, line.skip(12)))
    } else if seq_starts_with(line, "$OPENING:"@) {
        Some(("戦型"@, line.skip(9)))
    } else {
        None
    }
}

/// The header entries from line `i` on, and the line after them.
pub open spec fn header_from(ls: Seq<Seq<char>>, i: int) -> (Seq<(Seq<char>, Seq<char>)>, int)
    decreases ls.len() - i,
{
    if 0 <= i < ls.len() && meta_entry(ls[i]) is Some {
        let (rest, end) = header_from(ls, i + 1);
        (seq![meta_entry(ls[i]).unwrap()] + rest, end)
    } else {
        (Seq::empty(), i)
    }
}

/// A two-letter piece code: a kind, or `AL` (every piece not placed yet).
pub open spec fn piece_code(a: char, b: char) -> Option<Option<Kind>> {
    if a == 'F' && b == 'U' { Some(Some(Kind::FU)) }
    else if a == 'K' && b == 'Y' { Some(Some(Kind::KY)) }
    else if a == 'K' && b == 'E' { Some(Some(Kind::KE)) }
    else if a == 'G' && b == 'I' { Some(Some(Kind::GI)) }
    else if a == 'K' && b == 'I' { Some(Some(Kind::KI)) }
    else if a == 'K' && b == 'A' { Some(Some(Kind::KA)) }
    else if a == 'H' && b == 'I' { Some(Some(Kind::HI)) }
    else if a == 'O' && b == 'U' { Some(Some(Kind::OU)) }
    else if a == 'T' && b == 'O' { Some(Some(Kind::TO)) }
    else if a == 'N' && b == 'Y' { Some(Some(Kind::NY)) }
    else if a == 'N' && b == 'K' { Some(Some(Kind::NK)) }
    else if a == 'N' && b == 'G' { Some(Some(Kind::NG)) }
    else if a == 'U' && b == 'M' { Some(Some(Kind::UM)) }
    else if a == 'R' && b == 'Y' { Some(Some(Kind::RY)) }
    else if a == 'A' && b == 'L' { Some(None) }
    else { None }
}

/// `+` for Black, `-` for White.
pub open spec fn color_code(c: char) -> Option<Color> {
    if c == '+' { Some(Color::Black) } else if c == '-' { Some(Color::White) } else { None }
}

/// Where square `(file, rank)` sits in a flat board.
pub open spec fn flat_index(file: int, rank: int) -> int {
    (file - 1) * 9 + (rank - 1)
}

/// A square of a board row: ` * ` for an empty one, or a color and a kind.
pub open spec fn bulk_cell(line: Seq<char>, j: int) -> Option<Piece> {
    let a = line[2 + 3 * j];
    let b = line[3 + 3 * j];
    let c = line[4 + 3 * j];
    if a == ' ' && b == '*' && c == ' ' {
        Some(Piece::spec_empty())
    } else {
        match (color_code(a), piece_code(b, c)) {
            (Some(color), Some(Some(kind))) => Some(Piece { color: Some(color), kind: Some(kind) }),
            _ => None,
        }
    }
}

/// Whether line `k` of a board is `P<k+1>` and nine squares that read.
pub open spec fn bulk_line_ok(line: Seq<char>, k: int) -> bool {
    &&& line.len() == 29
    &&& line[0] == 'P'
    &&& is_digit(line[1]) && digit_value(line[1]) == k + 1
    &&& forall|j: int| 0 <= j < 9 ==> #[trigger] bulk_cell(line, j) is Some
}

/// The board the nine lines from `h` spell, rank by rank from file 9 down.
pub open spec fn bulk_board(ls: Seq<Seq<char>>, h: int) -> Option<Seq<Piece>> {
    if h + 9 <= ls.len() && forall|k: int| 0 <= k < 9 ==> #[trigger] bulk_line_ok(ls[h + k], k) {
        Some(Seq::new(81, |idx: int| bulk_cell(ls[h + idx % 9], 8 - idx / 9).unwrap()))
    } else {
        None
    }
}

/// Whether the `PI` line lists squares of the board, each with a piece code.
pub open spec fn drops_ok(line: Seq<char>) -> bool {
    &&& seq_starts_with(line, "PI"@)
    &&& (line.len() - 2) % 4 == 0
    &&& forall|g: int| 0 <= g < (line.len() - 2) / 4 ==> #[trigger] drop_ok(line, g)
}

/// Whether entry `g` of a `PI` line is a square of the board and a code.
pub open spec fn drop_ok(line: Seq<char>, g: int) -> bool {
    let o = 2 + 4 * g;
    &&& is_digit(line[o]) && is_digit(line[o + 1])
    &&& 1 <= digit_value(line[o]) <= 9 && 1 <= digit_value(line[o + 1]) <= 9
    &&& piece_code(line[o + 2], line[o + 3]) is Some
}

/// Whether one of the first `n` entries of a `PI` line takes the piece off
/// `(file, rank)`.
pub open spec fn dropped(line: Seq<char>, file: int, rank: int, n: int) -> bool {
    exists|g: int| 0 <= g < n && #[trigger] drop_square(line, g) == (file, rank)
}

/// The square entry `g` of a `PI` line names.
pub open spec fn drop_square(line: Seq<char>, g: int) -> (int, int) {
    (digit_value(line[2 + 4 * g]), digit_value(line[3 + 4 * g]))
}

/// The board after the first `n` entries of a `PI` line: the even game's, with
/// the listed squares emptied.
pub open spec fn pi_board_upto(line: Seq<char>, n: int) -> Seq<Piece> {
    Seq::new(81, |idx: int| if dropped(line, idx / 9 + 1, idx % 9 + 1, n) { Piece::spec_empty() } else { hirate_piece(idx / 9 + 1, idx % 9 + 1) })
}

/// The board a `PI` line spells.
pub open spec fn pi_board(line: Seq<char>) -> Seq<Piece> {
    pi_board_upto(line, (line.len() - 2) / 4)
}

/// The starting board from line `h`, and the line after it.
pub open spec fn base_board(ls: Seq<Seq<char>>, h: int) -> Option<(Seq<Piece>, int)> {
    if 0 <= h < ls.len() && drops_ok(ls[h]) {
        Some((pi_board(ls[h]), h + 1))
    } else {
        match bulk_board(ls, h) {
            Some(b) => Some((b, h + 9)),
            None => None,
        }
    }
}

/// How many of a kind a set holds, kings aside.
pub open spec fn set_count(k: Kind) -> int {
    match k {
        Kind::FU => 18,
        Kind::KY | Kind::KE | Kind::GI | Kind::KI => 4,
        Kind::KA | Kind::HI => 2,
        _ => 0,
    }
}

/// How many squares of the first `n` hold `k` or its promotion.
pub open spec fn on_board(board: Seq<Piece>, k: Kind, n: int) -> int
    decreases n,
{
    if n <= 0 {
        0
    } else {
        on_board(board, k, n - 1) + if board[n - 1].kind matches Some(b) && spec_unpromoted(b) == k { 1int } else { 0 }
    }
}

/// The pieces of `k` neither on the board nor in a hand.
pub open spec fn remaining(board: Seq<Piece>, hands: Seq<Hand>, k: Kind) -> int {
    let r = set_count(k) - on_board(board, k, 81) - hands[0].spec_slot(k).unwrap() - hands[1].spec_slot(k).unwrap();
    if r > 0 { r } else { 0 }
}

/// The hand kinds, rook last.
pub open spec fn hand_kind(i: int) -> Kind {
    if i == 0 { Kind::FU } else if i == 1 { Kind::KY } else if i == 2 { Kind::KE } else if i == 3 { Kind::GI }
    else if i == 4 { Kind::KI } else if i == 5 { Kind::KA } else { Kind::HI }
}

/// `h` with the first `n` hand kinds each topped up by what remains of them, or
/// `None` when a count would pass 255.
pub open spec fn add_all(h: Hand, board: Seq<Piece>, hands: Seq<Hand>, n: int) -> Option<Hand>
    decreases n,
{
    if n <= 0 {
        Some(h)
    } else {
        match add_all(h, board, hands, n - 1) {
            None => None,
            Some(h2) => {
                let k = hand_kind(n - 1);
                let c = h2.spec_slot(k).unwrap() + remaining(board, hands, k);
                if c > 255 { None } else { Some(h2.spec_with(k, c as u8)) }
            },
        }
    }
}

/// An added-piece line `P+<square><code>` applied to the board and the hands:
/// square `00` puts the piece in hand (`AL` every piece that remains), any
/// other square of the board places it there.
pub open spec fn apply_add(line: Seq<char>, board: Seq<Piece>, hands: Seq<Hand>) -> Option<(Seq<Piece>, Seq<Hand>)> {
    if line.len() != 6 || line[0] != 'P' || !is_digit(line[2]) || !is_digit(line[3]) {
        None
    } else {
        match (color_code(line[1]), piece_code(line[4], line[5])) {
            (Some(c), Some(code)) => {
                let f = digit_value(line[2]);
                let r = digit_value(line[3]);
                let i = c.spec_index();
                if f == 0 && r == 0 {
                    match code {
                        None => match add_all(hands[i], board, hands, 7) {
                            None => None,
                            Some(h) => Some((board, hands.update(i, h))),
                        },
                        Some(k) => match hands[i].spec_slot(k) {
                            Some(n) => if n < 255 { Some((board, hands.update(i, hands[i].spec_with(k, (n + 1) as u8)))) } else { None },
                            None => None,
                        },
                    }
                } else if 1 <= f <= 9 && 1 <= r <= 9 {
                    match code {
                        Some(k) => Some((board.update(flat_index(f, r), Piece { color: Some(c), kind: Some(k) }), hands)),
                        None => None,
                    }
                } else {
                    None
                }
            },
            _ => None,
        }
    }
}

/// Whether a line is an added-piece line.
pub open spec fn is_add_line(line: Seq<char>) -> bool {
    line.len() >= 2 && line[0] == 'P' && (line[1] == '+' || line[1] == '-')
}

/// The board and hands after the added-piece lines from `i` on, and the line
/// after them.
pub open spec fn adds_from(ls: Seq<Seq<char>>, i: int, board: Seq<Piece>, hands: Seq<Hand>) -> Option<(Seq<Piece>, Seq<Hand>, int)>
    decreases ls.len() - i,
{
    if 0 <= i < ls.len() && is_add_line(ls[i]) {
        match apply_add(ls[i], board, hands) {
            None => None,
            Some((b2, h2)) => adds_from(ls, i + 1, b2, h2),
        }
    } else {
        Some((board, hands, i))
    }
}

/// The outcome a CSA keyword names.
pub open spec fn special_of(w: Seq<char>) -> Option<MoveSpecial> {
    if w == spec_csa_word(MoveSpecial::SpecialToryo) { Some(MoveSpecial::SpecialToryo) }
    else if w == spec_csa_word(MoveSpecial::SpecialChudan) { Some(MoveSpecial::SpecialChudan) }
    else if w == spec_csa_word(MoveSpecial::SpecialSennichite) { Some(MoveSpecial::SpecialSennichite) }
    else if w == spec_csa_word(MoveSpecial::SpecialTimeUp) { Some(MoveSpecial::SpecialTimeUp) }
    else if w == spec_csa_word(MoveSpecial::SpecialIllegalMove) { Some(MoveSpecial::SpecialIllegalMove) }
    else if w == spec_csa_word(MoveSpecial::SpecialIllegalActionBlack) { Some(MoveSpecial::SpecialIllegalActionBlack) }
    else if w == spec_csa_word(MoveSpecial::SpecialIllegalActionWhite) { Some(MoveSpecial::SpecialIllegalActionWhite) }
    else if w == spec_csa_word(MoveSpecial::SpecialJishogi) { Some(MoveSpecial::SpecialJishogi) }
    else if w == spec_csa_word(MoveSpecial::SpecialKachi) { Some(MoveSpecial::SpecialKachi) }
    else if w == spec_csa_word(MoveSpecial::SpecialHikiwake) { Some(MoveSpecial::SpecialHikiwake) }
    else if w == spec_csa_word(MoveSpecial::SpecialMatta) { Some(MoveSpecial::SpecialMatta) }
    else if w == spec_csa_word(MoveSpecial::SpecialTsumi) { Some(MoveSpecial::SpecialTsumi) }
    else if w == spec_csa_word(MoveSpecial::SpecialFuzumi) { Some(MoveSpecial::SpecialFuzumi) }
    else if w == spec_csa_word(MoveSpecial::SpecialError) { Some(MoveSpecial::SpecialError) }
    else { None }
}

/// A move line `<color><from><to><kind>`; origin `00` is a drop. The kind is
/// the piece after the move.
pub open spec fn move_of_line(line: Seq<char>) -> Option<MoveMoveFormat> {
    if line.len() != 7 || !is_digit(line[1]) || !is_digit(line[2]) || !is_digit(line[3]) || !is_digit(line[4]) {
        None
    } else {
        match (color_code(line[0]), piece_code(line[5], line[6])) {
            (Some(c), Some(Some(k))) => {
                let fx = digit_value(line[1]) as u8;
                let fy = digit_value(line[2]) as u8;
                Some(MoveMoveFormat {
                    color: c,
                    from: if fx == 0 && fy == 0 { None } else { Some(PlaceFormat { x: fx, y: fy }) },
                    to: PlaceFormat { x: digit_value(line[3]) as u8, y: digit_value(line[4]) as u8 },
                    piece: k,
                    same: None,
                    promote: None,
                    capture: None,
                    relative: None,
                })
            },
            _ => None,
        }
    }
}

/// The number the digits of `w` from `i` on spell, when it fits in a `u64`.
pub open spec fn number_from(w: Seq<char>, n: int) -> Option<int>
    decreases n,
{
    if n <= 0 {
        Some(0)
    } else {
        match number_from(w, n - 1) {
            None => None,
            Some(v) => if is_digit(w[n - 1]) && v * 10 + digit_value(w[n - 1]) <= u64::MAX {
                Some(v * 10 + digit_value(w[n - 1]))
            } else {
                None
            },
        }
    }
}

/// A time line `T<seconds>`.
pub open spec fn time_line(line: Seq<char>) -> Option<int> {
    if line.len() >= 2 && line[0] == 'T' {
        number_from(line.skip(1), line.len() - 1)
    } else {
        None
    }
}

/// A move's time in seconds, as hours (from one hour up, held at what a `u16`
/// holds), minutes and seconds.
pub open spec fn time_of_seconds(secs: int) -> Time {
    Time {
        now: TimeFormat {
            h: if secs >= 3600 { Some(if secs / 3600 > u16::MAX { u16::MAX } else { (secs / 3600) as u16 }) } else { None },
            m: ((secs / 60) % 60) as u16,
            s: (secs % 60) as u16,
        },
        total: TimeFormat::spec_default(),
    }
}

/// The node a move or outcome line stands for, without its time.
pub open spec fn node_of_line(line: Seq<char>) -> Option<MoveFormat> {
    if line.len() >= 1 && line[0] == '%' {
        match special_of(line.skip(1)) {
            Some(sp) => Some(MoveFormat { special: Some(sp), ..MoveFormat::spec_empty() }),
            None => None,
        }
    } else {
        match move_of_line(line) {
            Some(m) => Some(MoveFormat { move_: Some(m), ..MoveFormat::spec_empty() }),
            None => None,
        }
    }
}

/// The nodes the lines from `i` on spell: each move or outcome line, with the
/// time line under it when there is one.
pub open spec fn nodes_from(ls: Seq<Seq<char>>, i: int) -> Option<Seq<MoveFormat>>
    decreases ls.len() - i,
{
    if i < 0 || i >= ls.len() {
        Some(Seq::empty())
    } else {
        match node_of_line(ls[i]) {
            None => None,
            Some(n) => {
                let timed = i + 1 < ls.len() && time_line(ls[i + 1]) is Some;
                let node = if timed { MoveFormat { time: Some(time_of_seconds(time_line(ls[i + 1]).unwrap())), ..n } } else { n };
                match nodes_from(ls, if timed { i + 2 } else { i + 1 }) {
                    None => None,
                    Some(rest) => Some(seq![node] + rest),
                }
            },
        }
    }
}

/// What a record in the fixed layout holds.
pub struct CsaParts {
    /// The header entries, as JKF key and value.
    pub header: Seq<(Seq<char>, Seq<char>)>,
    /// The starting board, by [`flat_index`].
    pub board: Seq<Piece>,
    /// The starting hands, Black's then White's.
    pub hands: Seq<Hand>,
    /// Who moves first.
    pub side: Color,
    /// The nodes after the starting position's slot.
    pub moves: Seq<MoveFormat>,
}

/// The parts of a record in the fixed layout, or `None` for text that is not
/// in it.
pub open spec fn spec_csa_parts(t: Seq<char>) -> Option<CsaParts> {
    let ls = lines_of(t);
    if ls.len() == 0 || ls[0] != "V2.2"@ {
        None
    } else {
        let (header, h) = header_from(ls, 1);
        match base_board(ls, h) {
            None => None,
            Some((board, a)) => match adds_from(ls, a, board, seq![Hand::spec_empty(), Hand::spec_empty()]) {
                None => None,
                Some((board, hands, sd)) => {
                    if sd < ls.len() && ls[sd].len() == 1 && color_code(ls[sd][0]) is Some {
                        match nodes_from(ls, sd + 1) {
                            None => None,
                            Some(moves) => Some(CsaParts { header, board, hands, side: color_code(ls[sd][0]).unwrap(), moves }),
                        }
                    } else {
                        None
                    }
                },
            },
        }
    }
}

/// `d` is the starting position `p` describes.
pub open spec fn holds_state(d: StateFormat, p: CsaParts) -> bool {
    &&& d.color == p.side
    &&& d.hands@ == p.hands
    &&& forall|f: int, r: int| 0 <= f < 9 && 0 <= r < 9 ==> #[trigger] d.board@[f]@[r] == p.board[f * 9 + r]
}

/// `j` is the record `p` describes: its header, a spelled-out starting
/// position, and the starting position's slot before the moves.
pub open spec fn holds_parts(j: JsonKifuFormat, p: CsaParts) -> bool {
    &&& j.header@.len() == p.header.len()
    &&& forall|i: int| 0 <= i < p.header.len() ==> (#[trigger] j.header@[i]).0@ == p.header[i].0 && j.header@[i].1@ == p.header[i].1
    &&& j.initial is Some
    &&& j.initial.unwrap().preset == Preset::PresetOther
    &&& j.initial.unwrap().data is Some
    &&& holds_state(j.initial.unwrap().data.unwrap(), p)
    &&& j.moves@ == seq![MoveFormat::spec_empty()] + p.moves
}

fn starts_lit(line: &Vec<char>, lit: &str) -> (b: bool)
    ensures
        b == seq_starts_with(line@, lit@),
{
    let m = lit.unicode_len();
    if m > line.len() {
        return false;
    }
    let mut i: usize = 0;
    while i < m
        invariant
            m == lit@.len(),
            m <= line@.len(),
            i <= m,
            forall|k: int| 0 <= k < i ==> line@[k] == lit@[k],
        decreases m - i,
    {
        if line[i] != lit.get_char(i) {
            assert(line@.subrange(0, m as int)[i as int] != lit@[i as int]);
            return false;
        }
        i = i + 1;
    }
    assert(line@.subrange(0, m as int) =~= lit@);
    true
}

fn eq_lit(line: &Vec<char>, lit: &str) -> (b: bool)
    ensures
        b == (line@ == lit@),
{
    if line.len() != lit.unicode_len() {
        return false;
    }
    let r = starts_lit(line, lit);
    assert(line@.subrange(0, line@.len() as int) =~= line@);
    r
}

fn string_from(line: &Vec<char>, from: usize) -> (s: String)
    requires
        from <= line@.len(),
    ensures
        s@ == line@.skip(from as int),
{
    let mut s = String::new();
    let mut i: usize = from;
    while i < line.len()
        invariant
            from <= i <= line@.len(),
            s@ == line@.subrange(from as int, i as int),
        decreases line@.len() - i,
    {
        push_char(&mut s, line[i]);
        assert(s@ =~= line@.subrange(from as int, i + 1));
        i = i + 1;
    }
    assert(line@.subrange(from as int, line@.len() as int) =~= line@.skip(from as int));
    s
}

fn owned(t: &str) -> (s: String)
    ensures
        s@ == t@,
{
    let mut s = String::new();
    s.append(t);
    s
}

fn read_meta(line: &Vec<char>) -> (r: Option<(String, String)>)
    ensures
        match r {
            None => meta_entry(line@) is None,
            Some((k, v)) => meta_entry(line@) == Some((k@, v@)),
        },
{
    proof {
        reveal_strlit("N+"); reveal_strlit("N-"); reveal_strlit("$EVENT:"); reveal_strlit("$SITE:");
        reveal_strlit("$START_TIME:"); reveal_strlit("$END_TIME:"); reveal_strlit("$TIME_LIMIT:"); reveal_strlit("$OPENING:");
    }
    if starts_lit(line, "N+") {
        Some((owned("先手"), string_from(line, 2)))
    } else if starts_lit(line, "N-") {
        Some((owned("後手"), string_from(line, 2)))
    } else if starts_lit(line, "$EVENT:") {
        Some((owned("棋戦"), string_from(line, 7)))
    } else if starts_lit(line, "$SITE:") {
        Some((owned("場所"), string_from(line, 6)))
    } else if starts_lit(line, "$START_TIME:") {
        Some((owned("開始日時"), string_from(line, 12)))
    } else if starts_lit(line, "$END_TIME:") {
        Some((owned("終了日時"), string_from(line, 10)))
    } else if starts_lit(line, "$TIME_LIMIT:") {
        Some((owned("持ち時間"), string_from(line, 12)))
    } else if starts_lit(line, "$OPENING:") {
        Some((owned("戦型"), string_from(line, 9)))
    } else {
        None
    }
}

/// The header entries from line 1 on, and the line after them.
fn read_header(ls: &Vec<Vec<char>>) -> (r: (Vec<(String, String)>, usize))
    requires
        ls@.len() >= 1,
    ensures
        r.0@.len() == header_from(ls@.map_values(|l: Vec<char>| l@), 1).0.len(),
        forall|i: int| 0 <= i < r.0@.len() ==> (#[trigger] r.0@[i]).0@ == header_from(ls@.map_values(|l: Vec<char>| l@), 1).0[i].0
            && r.0@[i].1@ == header_from(ls@.map_values(|l: Vec<char>| l@), 1).0[i].1,
        r.1 == header_from(ls@.map_values(|l: Vec<char>| l@), 1).1,
{
    let ghost L = ls@.map_values(|l: Vec<char>| l@);
    let ghost E: Seq<(Seq<char>, Seq<char>)> = Seq::empty();
    let mut out: Vec<(String, String)> = Vec::new();
    let mut i: usize = 1;
    assert(header_from(L, 1).0 =~= E + header_from(L, 1).0);
    while i < ls.len()
        invariant
            1 <= i <= ls@.len(),
            L == ls@.map_values(|l: Vec<char>| l@),
            header_from(L, 1).0 == E + header_from(L, i as int).0,
            header_from(L, 1).1 == header_from(L, i as int).1,
            out@.len() == E.len(),
            forall|k: int| 0 <= k < out@.len() ==> (#[trigger] out@[k]).0@ == E[k].0 && out@[k].1@ == E[k].1,
        decreases ls@.len() - i,
    {
        assert(L[i as int] == ls@[i as int]@);
        match read_meta(&ls[i]) {
            None => {
                return (out, i);
            },
            Some((k, v)) => {
                proof {
                    let m = meta_entry(L[i as int]).unwrap();
                    let rest = header_from(L, i + 1).0;
                    assert(header_from(L, i as int).0 == seq![m] + rest);
                    assert(E + (seq![m] + rest) =~= E.push(m) + rest);
                    E = E.push(m);
                }
                out.push((k, v));
                i = i + 1;
            },
        }
    }
    assert(header_from(L, i as int).0 =~= Seq::<(Seq<char>, Seq<char>)>::empty());
    assert(E + Seq::<(Seq<char>, Seq<char>)>::empty() =~= E);
    (out, i)
}

fn piece_code_exec(a: char, b: char) -> (r: Option<Option<Kind>>)
    ensures
        r == piece_code(a, b),
{
    if a == 'F' && b == 'U' { Some(Some(Kind::FU)) }
    else if a == 'K' && b == 'Y' { Some(Some(Kind::KY)) }
    else if a == 'K' && b == 'E' { Some(Some(Kind::KE)) }
    else if a == 'G' && b == 'I' { Some(Some(Kind::GI)) }
    else if a == 'K' && b == 'I' { Some(Some(Kind::KI)) }
    else if a == 'K' && b == 'A' { Some(Some(Kind::KA)) }
    else if a == 'H' && b == 'I' { Some(Some(Kind::HI)) }
    else if a == 'O' && b == 'U' { Some(Some(Kind::OU)) }
    else if a == 'T' && b == 'O' { Some(Some(Kind::TO)) }
    else if a == 'N' && b == 'Y' { Some(Some(Kind::NY)) }
    else if a == 'N' && b == 'K' { Some(Some(Kind::NK)) }
    else if a == 'N' && b == 'G' { Some(Some(Kind::NG)) }
    else if a == 'U' && b == 'M' { Some(Some(Kind::UM)) }
    else if a == 'R' && b == 'Y' { Some(Some(Kind::RY)) }
    else if a == 'A' && b == 'L' { Some(None) }
    else { None }
}

fn color_code_exec(c: char) -> (r: Option<Color>)
    ensures
        r == color_code(c),
{
    if c == '+' { Some(Color::Black) } else if c == '-' { Some(Color::White) } else { None }
}


fn bulk_cell_exec(line: &Vec<char>, j: usize) -> (r: Option<Piece>)
    requires
        j < 9,
        line@.len() == 29,
    ensures
        r == bulk_cell(line@, j as int),
{
    let a = line[2 + 3 * j];
    let b = line[3 + 3 * j];
    let c = line[4 + 3 * j];
    if a == ' ' && b == '*' && c == ' ' {
        Some(Piece::empty())
    } else {
        match (color_code_exec(a), piece_code_exec(b, c)) {
            (Some(color), Some(Some(kind))) => Some(Piece { color: Some(color), kind: Some(kind) }),
            _ => None,
        }
    }
}

fn bulk_line_ok_exec(line: &Vec<char>, k: usize) -> (b: bool)
    requires
        k < 9,
    ensures
        b == bulk_line_ok(line@, k as int),
{
    if line.len() != 29 || line[0] != 'P' || !is_digit_exec(line[1]) || digit_of(line[1]) != (k + 1) as i64 {
        return false;
    }
    let mut j: usize = 0;
    while j < 9
        invariant
            line@.len() == 29,
            j <= 9,
            forall|m: int| 0 <= m < j ==> #[trigger] bulk_cell(line@, m) is Some,
        decreases 9 - j,
    {
        if bulk_cell_exec(line, j).is_none() {
            return false;
        }
        j = j + 1;
    }
    true
}

fn bulk_board_exec(ls: &Vec<Vec<char>>, h: usize) -> (r: Option<Vec<Piece>>)
    ensures
        match r {
            None => bulk_board(ls@.map_values(|l: Vec<char>| l@), h as int) is None,
            Some(v) => bulk_board(ls@.map_values(|l: Vec<char>| l@), h as int) == Some(v@),
        },
{
    let ghost L = ls@.map_values(|l: Vec<char>| l@);
    if h > ls.len() || ls.len() - h < 9 {
        return None;
    }
    let mut k: usize = 0;
    while k < 9
        invariant
            h + 9 <= ls.len(),
            L == ls@.map_values(|l: Vec<char>| l@),
            k <= 9,
            forall|m: int| 0 <= m < k ==> #[trigger] bulk_line_ok(L[h + m], m),
        decreases 9 - k,
    {
        assert(L[h + k] == ls@[h + k]@);
        if !bulk_line_ok_exec(&ls[h + k], k) {
            return None;
        }
        k = k + 1;
    }
    let mut v: Vec<Piece> = Vec::new();
    let mut idx: usize = 0;
    while idx < 81
        invariant
            h + 9 <= ls.len(),
            L == ls@.map_values(|l: Vec<char>| l@),
            forall|m: int| 0 <= m < 9 ==> #[trigger] bulk_line_ok(L[h + m], m),
            idx <= 81,
            v@.len() == idx,
            forall|m: int| #![trigger v@[m]] 0 <= m < idx ==> bulk_cell(L[h + m % 9], 8 - m / 9) == Some(v@[m]),
        decreases 81 - idx,
    {
        let row = idx % 9;
        let col = 8 - idx / 9;
        assert(L[h + row] == ls@[h + row]@);
        assert(bulk_line_ok(L[h + row as int], row as int));
        assert(bulk_cell(L[h + row as int], col as int) is Some);
        let c = bulk_cell_exec(&ls[h + row], col);
        v.push(c.unwrap());
        idx = idx + 1;
    }
    assert(v@ =~= Seq::new(81, |m: int| bulk_cell(L[h + m % 9], 8 - m / 9).unwrap())) by {
        assert forall|m: int| 0 <= m < 81 implies v@[m] == bulk_cell(L[h + m % 9], 8 - m / 9).unwrap() by {
            assert(bulk_cell(L[h + m % 9], 8 - m / 9) == Some(v@[m]));
        }
    }
    Some(v)
}

fn drops_ok_exec(line: &Vec<char>) -> (b: bool)
    ensures
        b == drops_ok(line@),
{
    proof { reveal_strlit("PI"); }
    if !starts_lit(line, "PI") || (line.len() - 2) % 4 != 0 {
        return false;
    }
    let n = (line.len() - 2) / 4;
    assert(line@.len() == 2 + 4 * n);
    let mut g: usize = 0;
    let mut o: usize = 2;
    while g < n
        invariant
            line@.len() == 2 + 4 * n,
            line@.len() == line.len(),
            seq_starts_with(line@, "PI"@),
            n == (line@.len() - 2) / 4,
            (line@.len() - 2) % 4 == 0,
            g <= n,
            o == 2 + 4 * g,
            forall|m: int| 0 <= m < g ==> #[trigger] drop_ok(line@, m),
        decreases n - g,
    {
        if !(is_digit_exec(line[o]) && is_digit_exec(line[o + 1])) {
            assert(!drop_ok(line@, g as int));
            return false;
        }
        let f = digit_of(line[o]);
        let r = digit_of(line[o + 1]);
        if f < 1 || r < 1 || piece_code_exec(line[o + 2], line[o + 3]).is_none() {
            assert(!drop_ok(line@, g as int));
            return false;
        }
        g = g + 1;
        o = o + 4;
    }
    true
}

fn pi_board_exec(line: &Vec<char>) -> (v: Vec<Piece>)
    requires
        drops_ok(line@),
    ensures
        v@ == pi_board(line@),
{
    let b = crate::handicap::hirate_board();
    let mut v: Vec<Piece> = Vec::new();
    let mut idx: usize = 0;
    while idx < 81
        invariant
            board_is(b, |f: int, r: int| hirate_piece(f, r)),
            idx <= 81,
            v@.len() == idx,
            forall|m: int| 0 <= m < idx ==> #[trigger] v@[m] == hirate_piece(m / 9 + 1, m % 9 + 1),
        decreases 81 - idx,
    {
        assert(b@[(idx / 9) as int]@[(idx % 9) as int] == hirate_piece(idx / 9 + 1, idx % 9 + 1));
        v.push(b[idx / 9][idx % 9]);
        idx = idx + 1;
    }
    assert(v@ =~= pi_board_upto(line@, 0));
    let n = (line.len() - 2) / 4;
    assert(line@.len() == 2 + 4 * n);
    let mut g: usize = 0;
    let mut o: usize = 2;
    while g < n
        invariant
            drops_ok(line@),
            line@.len() == 2 + 4 * n,
            line@.len() == line.len(),
            n == (line@.len() - 2) / 4,
            g <= n,
            o == 2 + 4 * g,
            v@.len() == 81,
            v@ == pi_board_upto(line@, g as int),
        decreases n - g,
    {
        assert(drop_ok(line@, g as int));
        let f = digit_of(line[o]) as usize;
        let r = digit_of(line[o + 1]) as usize;
        let target = (f - 1) * 9 + (r - 1);
        v.set(target, Piece::empty());
        proof {
            assert forall|m: int| 0 <= m < 81 implies #[trigger] v@[m] == pi_board_upto(line@, g + 1)[m] by {
                let file = m / 9 + 1;
                let rank = m % 9 + 1;
                if m == target {
                    assert(drop_square(line@, g as int) == (file, rank));
                    assert(dropped(line@, file, rank, g + 1));
                } else {
                    assert(drop_square(line@, g as int) != (file, rank));
                    if dropped(line@, file, rank, g + 1) {
                        let w = choose|w: int| 0 <= w < g + 1 && #[trigger] drop_square(line@, w) == (file, rank);
                        assert(w < g);
                        assert(dropped(line@, file, rank, g as int));
                    }
                    if dropped(line@, file, rank, g as int) {
                        let w = choose|w: int| 0 <= w < g && #[trigger] drop_square(line@, w) == (file, rank);
                        assert(dropped(line@, file, rank, g + 1));
                    }
                }
            }
            assert(v@ =~= pi_board_upto(line@, g + 1));
        }
        g = g + 1;
        o = o + 4;
    }
    v
}

fn read_base_board(ls: &Vec<Vec<char>>, h: usize) -> (r: Option<(Vec<Piece>, usize)>)
    ensures
        match r {
            None => base_board(ls@.map_values(|l: Vec<char>| l@), h as int) is None,
            Some((b, a)) => base_board(ls@.map_values(|l: Vec<char>| l@), h as int) == Some((b@, a as int)),
        },
{
    let ghost L = ls@.map_values(|l: Vec<char>| l@);
    if h < ls.len() {
        assert(L[h as int] == ls@[h as int]@);
        if drops_ok_exec(&ls[h]) {
            return Some((pi_board_exec(&ls[h]), h + 1));
        }
    }
    match bulk_board_exec(ls, h) {
        Some(b) => Some((b, h + 9)),
        None => None,
    }
}

fn set_count_exec(k: Kind) -> (n: i64)
    ensures
        n == set_count(k),
{
    match k {
        Kind::FU => 18,
        Kind::KY | Kind::KE | Kind::GI | Kind::KI => 4,
        Kind::KA | Kind::HI => 2,
        _ => 0,
    }
}

fn on_board_exec(board: &Vec<Piece>, k: Kind) -> (n: i64)
    requires
        board@.len() == 81,
    ensures
        n == on_board(board@, k, 81),
        0 <= n <= 81,
{
    let mut n: i64 = 0;
    let mut i: usize = 0;
    while i < 81
        invariant
            board@.len() == 81,
            i <= 81,
            n == on_board(board@, k, i as int),
            0 <= n <= i,
        decreases 81 - i,
    {
        match board[i].kind {
            Some(b) => {
                if b.unpromoted() == k {
                    n = n + 1;
                }
            },
            None => {},
        }
        i = i + 1;
    }
    n
}

fn remaining_exec(board: &Vec<Piece>, hands: &Vec<Hand>, k: Kind) -> (r: i64)
    requires
        board@.len() == 81,
        hands@.len() == 2,
        hands@[0].spec_slot(k) is Some,
        hands@[1].spec_slot(k) is Some,
    ensures
        r == remaining(board@, hands@, k),
        0 <= r <= 18,
{
    let a: i64 = match hands[0].slot(k) { Some(n) => n as i64, None => 0 };
    let b: i64 = match hands[1].slot(k) { Some(n) => n as i64, None => 0 };
    let r = set_count_exec(k) - on_board_exec(board, k) - a - b;
    if r > 0 { r } else { 0 }
}

fn hand_kind_exec(i: usize) -> (k: Kind)
    ensures
        k == hand_kind(i as int),
{
    if i == 0 { Kind::FU } else if i == 1 { Kind::KY } else if i == 2 { Kind::KE } else if i == 3 { Kind::GI }
    else if i == 4 { Kind::KI } else if i == 5 { Kind::KA } else { Kind::HI }
}

proof fn lemma_add_all_stays_none(h: Hand, board: Seq<Piece>, hands: Seq<Hand>, m: int, n: int)
    requires
        0 <= m <= n,
        add_all(h, board, hands, m) is None,
    ensures
        add_all(h, board, hands, n) is None,
    decreases n - m,
{
    if m < n {
        lemma_add_all_stays_none(h, board, hands, m, n - 1);
    }
}

fn add_all_exec(h: Hand, board: &Vec<Piece>, hands: &Vec<Hand>) -> (r: Option<Hand>)
    requires
        board@.len() == 81,
        hands@.len() == 2,
    ensures
        r == add_all(h, board@, hands@, 7),
{
    let mut cur = h;
    let mut i: usize = 0;
    while i < 7
        invariant
            board@.len() == 81,
            hands@.len() == 2,
            i <= 7,
            add_all(h, board@, hands@, i as int) == Some(cur),
        decreases 7 - i,
    {
        let k = hand_kind_exec(i);
        let have: i64 = match cur.slot(k) { Some(n) => n as i64, None => 0 };
        let c = have + remaining_exec(board, hands, k);
        if c > 255 {
            proof { lemma_add_all_stays_none(h, board@, hands@, i + 1, 7); }
            return None;
        }
        cur.set_slot(k, c as u8);
        i = i + 1;
    }
    Some(cur)
}

fn apply_add_exec(line: &Vec<char>, board: Vec<Piece>, hands: Vec<Hand>) -> (r: Option<(Vec<Piece>, Vec<Hand>)>)
    requires
        board@.len() == 81,
        hands@.len() == 2,
    ensures
        match r {
            None => apply_add(line@, board@, hands@) is None,
            Some((b, h)) => apply_add(line@, board@, hands@) == Some((b@, h@)) && b@.len() == 81 && h@.len() == 2,
        },
{
    if line.len() != 6 || line[0] != 'P' || !is_digit_exec(line[2]) || !is_digit_exec(line[3]) {
        return None;
    }
    let c = match color_code_exec(line[1]) {
        Some(c) => c,
        None => return None,
    };
    let code = match piece_code_exec(line[4], line[5]) {
        Some(code) => code,
        None => return None,
    };
    let f = digit_of(line[2]);
    let r = digit_of(line[3]);
    let i = c.index();
    if f == 0 && r == 0 {
        match code {
            None => match add_all_exec(hands[i], &board, &hands) {
                None => None,
                Some(h) => {
                    let mut hs = hands;
                    hs.set(i, h);
                    Some((board, hs))
                },
            },
            Some(k) => match hands[i].slot(k) {
                Some(n) => {
                    if n < 255 {
                        let mut hs = hands;
                        let mut h = hs[i];
                        h.set_slot(k, n + 1);
                        hs.set(i, h);
                        Some((board, hs))
                    } else {
                        None
                    }
                },
                None => None,
            },
        }
    } else if 1 <= f && f <= 9 && 1 <= r && r <= 9 {
        match code {
            Some(k) => {
                let mut b = board;
                let at = ((f - 1) * 9 + (r - 1)) as usize;
                b.set(at, Piece { color: Some(c), kind: Some(k) });
                Some((b, hands))
            },
            None => None,
        }
    } else {
        None
    }
}

fn is_add_line_exec(line: &Vec<char>) -> (b: bool)
    ensures
        b == is_add_line(line@),
{
    line.len() >= 2 && line[0] == 'P' && (line[1] == '+' || line[1] == '-')
}

/// The board and hands after the added-piece lines from `start` on.
fn read_adds(ls: &Vec<Vec<char>>, start: usize, board: Vec<Piece>, hands: Vec<Hand>) -> (r: Option<(Vec<Piece>, Vec<Hand>, usize)>)
    requires
        board@.len() == 81,
        hands@.len() == 2,
    ensures
        match r {
            None => adds_from(ls@.map_values(|l: Vec<char>| l@), start as int, board@, hands@) is None,
            Some((b, h, i)) => adds_from(ls@.map_values(|l: Vec<char>| l@), start as int, board@, hands@) == Some((b@, h@, i as int))
                && b@.len() == 81 && h@.len() == 2,
        },
{
    let ghost L = ls@.map_values(|l: Vec<char>| l@);
    let mut b = board;
    let mut h = hands;
    let mut i = start;
    while i < ls.len()
        invariant
            L == ls@.map_values(|l: Vec<char>| l@),
            b@.len() == 81,
            h@.len() == 2,
            adds_from(L, start as int, board@, hands@) == adds_from(L, i as int, b@, h@),
        decreases ls@.len() - i,
    {
        assert(L[i as int] == ls@[i as int]@);
        if !is_add_line_exec(&ls[i]) {
            return Some((b, h, i));
        }
        match apply_add_exec(&ls[i], b, h) {
            None => {
                return None;
            },
            Some((b2, h2)) => {
                b = b2;
                h = h2;
            },
        }
        i = i + 1;
    }
    Some((b, h, i))
}

proof fn lemma_number_stays_none(w: Seq<char>, m: int, n: int)
    requires
        0 <= m <= n,
        number_from(w, m) is None,
    ensures
        number_from(w, n) is None,
    decreases n - m,
{
    if m < n {
        lemma_number_stays_none(w, m, n - 1);
    }
}

/// The seconds a time line states.
fn read_time(line: &Vec<char>) -> (r: Option<u64>)
    ensures
        match r {
            None => time_line(line@) is None,
            Some(v) => time_line(line@) == Some(v as int),
        },
{
    if line.len() < 2 || line[0] != 'T' {
        return None;
    }
    let ghost w = line@.skip(1);
    let n = line.len() - 1;
    let mut v: u64 = 0;
    let mut k: usize = 0;
    while k < n
        invariant
            w == line@.skip(1),
            n == line@.len() - 1,
            k <= n,
            number_from(w, k as int) == Some(v as int),
        decreases n - k,
    {
        let c = line[k + 1];
        assert(w[k as int] == c);
        if !is_digit_exec(c) {
            proof { lemma_number_stays_none(w, k + 1, n as int); }
            return None;
        }
        let d = digit_of(c) as u64;
        let next = match v.checked_mul(10) {
            Some(x) => x.checked_add(d),
            None => None,
        };
        match next {
            None => {
                proof { lemma_number_stays_none(w, k + 1, n as int); }
                return None;
            },
            Some(x) => {
                v = x;
            },
        }
        k = k + 1;
    }
    Some(v)
}

fn time_of_seconds_exec(secs: u64) -> (t: Time)
    ensures
        t == time_of_seconds(secs as int),
{
    let h = if secs >= 3600 {
        let q = secs / 3600;
        Some(if q > 65535 { 65535u16 } else { q as u16 })
    } else {
        None
    };
    Time { now: TimeFormat { h, m: ((secs / 60) % 60) as u16, s: (secs % 60) as u16 }, total: TimeFormat::default() }
}

/// Whether the line after its first character is `lit`.
fn tail_is(line: &Vec<char>, lit: &str) -> (b: bool)
    requires
        line@.len() >= 1,
    ensures
        b == (line@.skip(1) == lit@),
{
    let m = lit.unicode_len();
    if line.len() - 1 != m {
        return false;
    }
    let mut i: usize = 0;
    while i < m
        invariant
            m == lit@.len(),
            line@.len() == m + 1,
            i <= m,
            forall|k: int| 0 <= k < i ==> line@[k + 1] == lit@[k],
        decreases m - i,
    {
        if line[i + 1] != lit.get_char(i) {
            assert(line@.skip(1)[i as int] != lit@[i as int]);
            return false;
        }
        i = i + 1;
    }
    assert(line@.skip(1) =~= lit@);
    true
}

fn special_of_line(line: &Vec<char>) -> (r: Option<MoveSpecial>)
    requires
        line@.len() >= 1,
    ensures
        r == special_of(line@.skip(1)),
{
    if tail_is(line, MoveSpecial::SpecialToryo.csa_word()) { Some(MoveSpecial::SpecialToryo) }
    else if tail_is(line, MoveSpecial::SpecialChudan.csa_word()) { Some(MoveSpecial::SpecialChudan) }
    else if tail_is(line, MoveSpecial::SpecialSennichite.csa_word()) { Some(MoveSpecial::SpecialSennichite) }
    else if tail_is(line, MoveSpecial::SpecialTimeUp.csa_word()) { Some(MoveSpecial::SpecialTimeUp) }
    else if tail_is(line, MoveSpecial::SpecialIllegalMove.csa_word()) { Some(MoveSpecial::SpecialIllegalMove) }
    else if tail_is(line, MoveSpecial::SpecialIllegalActionBlack.csa_word()) { Some(MoveSpecial::SpecialIllegalActionBlack) }
    else if tail_is(line, MoveSpecial::SpecialIllegalActionWhite.csa_word()) { Some(MoveSpecial::SpecialIllegalActionWhite) }
    else if tail_is(line, MoveSpecial::SpecialJishogi.csa_word()) { Some(MoveSpecial::SpecialJishogi) }
    else if tail_is(line, MoveSpecial::SpecialKachi.csa_word()) { Some(MoveSpecial::SpecialKachi) }
    else if tail_is(line, MoveSpecial::SpecialHikiwake.csa_word()) { Some(MoveSpecial::SpecialHikiwake) }
    else if tail_is(line, MoveSpecial::SpecialMatta.csa_word()) { Some(MoveSpecial::SpecialMatta) }
    else if tail_is(line, MoveSpecial::SpecialTsumi.csa_word()) { Some(MoveSpecial::SpecialTsumi) }
    else if tail_is(line, MoveSpecial::SpecialFuzumi.csa_word()) { Some(MoveSpecial::SpecialFuzumi) }
    else if tail_is(line, MoveSpecial::SpecialError.csa_word()) { Some(MoveSpecial::SpecialError) }
    else { None }
}

fn move_of_line_exec(line: &Vec<char>) -> (r: Option<MoveMoveFormat>)
    ensures
        r == move_of_line(line@),
{
    if line.len() != 7 || !is_digit_exec(line[1]) || !is_digit_exec(line[2]) || !is_digit_exec(line[3]) || !is_digit_exec(line[4]) {
        return None;
    }
    let c = match color_code_exec(line[0]) {
        Some(c) => c,
        None => return None,
    };
    let k = match piece_code_exec(line[5], line[6]) {
        Some(Some(k)) => k,
        _ => return None,
    };
    let fx = digit_of(line[1]) as u8;
    let fy = digit_of(line[2]) as u8;
    let tx = digit_of(line[3]) as u8;
    let ty = digit_of(line[4]) as u8;
    Some(MoveMoveFormat {
        color: c,
        from: if fx == 0 && fy == 0 { None } else { Some(PlaceFormat { x: fx, y: fy }) },
        to: PlaceFormat { x: tx, y: ty },
        piece: k,
        same: None,
        promote: None,
        capture: None,
        relative: None,
    })
}

fn node_of_line_exec(line: &Vec<char>) -> (r: Option<MoveFormat>)
    ensures
        r == node_of_line(line@),
{
    if line.len() >= 1 && line[0] == '%' {
        match special_of_line(line) {
            Some(sp) => Some(MoveFormat { move_: None, comments: None, time: None, special: Some(sp), forks: None }),
            None => None,
        }
    } else {
        match move_of_line_exec(line) {
            Some(m) => Some(MoveFormat { move_: Some(m), comments: None, time: None, special: None, forks: None }),
            None => None,
        }
    }
}

/// `r` with `a` in front, when there is one.
pub open spec fn prefixed(a: Seq<MoveFormat>, r: Option<Seq<MoveFormat>>) -> Option<Seq<MoveFormat>> {
    match r {
        None => None,
        Some(x) => Some(a + x),
    }
}

/// The starting position's slot, then the nodes the lines from `start` on spell.
fn read_nodes(ls: &Vec<Vec<char>>, start: usize) -> (r: Option<Vec<MoveFormat>>)
    ensures
        match r {
            None => nodes_from(ls@.map_values(|l: Vec<char>| l@), start as int) is None,
            Some(v) => prefixed(seq![MoveFormat::spec_empty()], nodes_from(ls@.map_values(|l: Vec<char>| l@), start as int)) == Some(v@),
        },
{
    let ghost L = ls@.map_values(|l: Vec<char>| l@);
    let mut acc: Vec<MoveFormat> = Vec::new();
    acc.push(MoveFormat::default());
    let mut i = start;
    assert(acc@ =~= seq![MoveFormat::spec_empty()]);
    while i < ls.len()
        invariant
            L == ls@.map_values(|l: Vec<char>| l@),
            start <= i,
            prefixed(seq![MoveFormat::spec_empty()], nodes_from(L, start as int)) == prefixed(acc@, nodes_from(L, i as int)),
        decreases ls@.len() - i,
    {
        assert(L[i as int] == ls@[i as int]@);
        match node_of_line_exec(&ls[i]) {
            None => {
                return None;
            },
            Some(n) => {
                let mut node = n;
                let secs = if i + 1 < ls.len() {
                    assert(L[i + 1] == ls@[i + 1]@);
                    read_time(&ls[i + 1])
                } else {
                    None
                };
                let ghost i0 = i as int;
                match secs {
                    Some(t) => {
                        node.time = Some(time_of_seconds_exec(t));
                        i = i + 2;
                    },
                    None => {
                        i = i + 1;
                    },
                }
                proof {
                    match nodes_from(L, i as int) {
                        None => {},
                        Some(rest) => {
                            assert(nodes_from(L, i0) == Some(seq![node] + rest));
                            assert(acc@ + (seq![node] + rest) =~= acc@.push(node) + rest);
                        },
                    }
                }
                acc.push(node);
            },
        }
    }
    assert(acc@ + Seq::<MoveFormat>::empty() =~= acc@);
    Some(acc)
}

fn to_grid(board: &Vec<Piece>) -> (g: [[Piece; 9]; 9])
    requires
        board@.len() == 81,
    ensures
        forall|f: int, r: int| 0 <= f < 9 && 0 <= r < 9 ==> #[trigger] g@[f]@[r] == board@[f * 9 + r],
{
    let mut g = [[Piece::empty(); 9]; 9];
    let mut i: usize = 0;
    while i < 9
        invariant
            board@.len() == 81,
            i <= 9,
            forall|x: int, y: int| 0 <= x < i && 0 <= y < 9 ==> #[trigger] g@[x]@[y] == board@[x * 9 + y],
        decreases 9 - i,
    {
        let mut j: usize = 0;
        while j < 9
            invariant
                board@.len() == 81,
                i < 9,
                j <= 9,
                forall|x: int, y: int| 0 <= x < i && 0 <= y < 9 ==> #[trigger] g@[x]@[y] == board@[x * 9 + y],
                forall|y: int| 0 <= y < j ==> #[trigger] g@[i as int]@[y] == board@[i * 9 + y],
            decreases 9 - j,
        {
            g[i][j] = board[i * 9 + j];
            j = j + 1;
        }
        i = i + 1;
    }
    g
}

/// The record a text in the fixed layout describes (see [`spec_csa_parts`]),
/// with its starting position spelled out; `None` for text not in the layout.
pub fn csa_layout_record(text: &str) -> (r: Option<JsonKifuFormat>)
    ensures
        match r {
            None => spec_csa_parts(text@) is None,
            Some(j) => spec_csa_parts(text@) matches Some(p) && holds_parts(j, p),
        },
{
    let chars = chars_of(text);
    let ls = split_lines(&chars);
    let ghost L = ls@.map_values(|l: Vec<char>| l@);
    assert(L =~= lines_of(text@));
    proof { reveal_strlit("V2.2"); }
    if ls.len() == 0 {
        return None;
    }
    assert(L[0] == ls@[0]@);
    if !eq_lit(&ls[0], "V2.2") {
        return None;
    }
    let (header, h) = read_header(&ls);
    let (board, a) = match read_base_board(&ls, h) {
        None => return None,
        Some(x) => x,
    };
    let mut hands: Vec<Hand> = Vec::new();
    hands.push(Hand::empty());
    hands.push(Hand::empty());
    assert(hands@ =~= seq![Hand::spec_empty(), Hand::spec_empty()]);
    let (board, hands, sd) = match read_adds(&ls, a, board, hands) {
        None => return None,
        Some(x) => x,
    };
    if sd >= ls.len() || ls[sd].len() != 1 {
        return None;
    }
    assert(L[sd as int] == ls@[sd as int]@);
    let side = match color_code_exec(ls[sd][0]) {
        None => return None,
        Some(c) => c,
    };
    let moves = match read_nodes(&ls, sd + 1) {
        None => return None,
        Some(m) => m,
    };
    let hand_pair = [hands[0], hands[1]];
    assert(hand_pair@ =~= hands@);
    let data = StateFormat { color: side, board: to_grid(&board), hands: hand_pair };
    let jkf = JsonKifuFormat {
        header,
        initial: Some(Initial { preset: Preset::PresetOther, data: Some(data) }),
        moves,
    };
    Some(jkf)
}

/// What the record `p` describes comes to once normalized: `r` is the
/// normalized record, or the error normalizing it reports.
pub open spec fn normalizes_to(p: CsaParts, r: Result<JsonKifuFormat, ParseError>) -> bool {
    match r {
        Ok(j) => exists|j0: JsonKifuFormat| #[trigger] holds_parts(j0, p) && normalized(j0, j, Ok(())),
        Err(ParseError::Normalize(e)) => exists|j0: JsonKifuFormat, j1: JsonKifuFormat|
            #[trigger] holds_parts(j0, p) && #[trigger] normalized(j0, j1, Err(e)),
        Err(_) => false,
    }
}

/// The normalized record a text in the fixed layout describes: `CsaConvert`
/// for a text that is not in it or does not make a record (an added piece
/// past what a hand holds, a square off the board), `Normalize` when the
/// moves do not replay from the position.
pub fn record_of_csa_layout(text: &str) -> (r: Result<JsonKifuFormat, ParseError>)
    ensures
        match spec_csa_parts(text@) {
            None => r matches Err(ParseError::CsaConvert(m)) && m@ == "the record does not make a position"@,
            Some(p) => normalizes_to(p, r),
        },
{
    match csa_layout_record(text) {
        None => Err(ParseError::CsaConvert(owned("the record does not make a position"))),
        Some(jkf) => {
            let ghost j0 = jkf;
            let mut jkf = jkf;
            match jkf.normalize() {
                Ok(()) => {
                    assert(holds_parts(j0, spec_csa_parts(text@).unwrap()));
                    assert(normalized(j0, jkf, Ok(())));
                    Ok(jkf)
                },
                Err(e) => {
                    assert(holds_parts(j0, spec_csa_parts(text@).unwrap()));
                    assert(normalized(j0, jkf, Err(e)));
                    Err(ParseError::Normalize(e))
                },
            }
        },
    }
}

/// The record a CSA text holds: what the `csa` crate reads in it (a
/// byte-order mark at its head aside), written out in the fixed layout, then
/// turned into a JKF and normalized (see [`record_of_csa_layout`]). `Csa`
/// carries the crate's refusal.
pub fn parse_csa_str(s: &str) -> (r: Result<JsonKifuFormat, ParseError>)
    requires
        csa_text_is_readable(spec_without_bom(s@)),
    ensures
        match csa_reading(spec_without_bom(s@)) {
            Err(m) => r matches Err(ParseError::Csa(m2)) && m2@ == m,
            Ok(t) => match spec_csa_parts(t) {
                None => r matches Err(ParseError::CsaConvert(m)) && m@ == "the record does not make a position"@,
                Some(p) => normalizes_to(p, r),
            },
        },
{
    let t = without_a_byte_order_mark(s);
    match csa_record_text(t) {
        Err(m) => Err(ParseError::Csa(m)),
        Ok(text) => record_of_csa_layout(text.as_str()),
    }
}
} // verus!
