//! What the KIF reader gives back of a move line the KIF writer writes.

use vstd::prelude::*;
use crate::parser::kakinoki::{ascii_digit, ascii_digits_end, decimal_value, padding_end, piece_word};
use crate::text::{decimal, digit_char, pad_left};
use crate::notation::spec_move_word;
use crate::jkf::{Kind, MoveSpecial};
use crate::converter::kif::kif_special_word;
use crate::parser::kakinoki::{lit_at, outcome_word_here, small_number_at, spec_move_time, spec_move_time_format};
use crate::converter::kif::{move_time_text, time_text, total_time_text, two_digits};
use crate::jkf::{Time, TimeFormat};
use crate::notation::{kansuji, sanyou_suji, spec_is_padding};
use crate::jkf::{MoveMoveFormat, PlaceFormat};
use crate::converter::kif::{kif_move_text, node_body, node_line, node_width, origin_text, padding_to_time};
use crate::jkf::MoveFormat;
use crate::parser::kakinoki::{is_line_end_char, numbered_line_at, eol_at};
use crate::properties::header_block::lemma_line_stop_at;
use crate::parser::header_block::{comment_text_line, not_line_ending};
use crate::converter::kakinoki::comment_line;
use crate::text::seq_starts_with;

use crate::parser::kakinoki::{file_digit, move_body_at, move_to, origin_at, rank_numeral, BodyView};

verus! {

proof fn lemma_decimal_digits(n: nat)
    ensures
        decimal(n).len() >= 1,
        forall|j: int| 0 <= j < decimal(n).len() ==> ascii_digit(#[trigger] decimal(n)[j]),
    decreases n,
{
    if n >= 10 {
        lemma_decimal_digits(n / 10);
        assert forall|j: int| 0 <= j < decimal(n).len() implies ascii_digit(#[trigger] decimal(n)[j]) by {
            if j < decimal(n / 10).len() {
                assert(decimal(n)[j] == decimal(n / 10)[j]);
            }
        }
    }
}

/// The digits of `n`, written from `i` with no digit after them, read back
/// as `n`.
pub(crate) proof fn lemma_decimal_reads_back(n: nat, s: Seq<char>, i: int)
    requires
        0 <= i,
        i + decimal(n).len() <= s.len(),
        s.subrange(i, i + decimal(n).len()) == decimal(n),
    ensures
        decimal_value(s, i, i + decimal(n).len()) == n,
        forall|j: int| i <= j < i + decimal(n).len() ==> ascii_digit(#[trigger] s[j]),
    decreases n,
{
    lemma_decimal_digits(n);
    let d = decimal(n);
    let e = i + d.len();
    assert forall|j: int| i <= j < e implies ascii_digit(#[trigger] s[j]) by {
        assert(s.subrange(i, e)[j - i] == s[j]);
    }
    if n < 10 {
        assert(s[i] == d[0]) by { assert(s.subrange(i, e)[0] == s[i]); }
        assert(decimal_value(s, i, i) == 0);
    } else {
        let m = n / 10;
        let dm = decimal(m);
        assert(d == dm.push(digit_char(n % 10)));
        assert(s.subrange(i, i + dm.len()) =~= dm) by {
            assert forall|j: int| 0 <= j < dm.len() implies s.subrange(i, i + dm.len())[j] == dm[j] by {
                assert(s.subrange(i, e)[j] == s[i + j]);
                assert(d[j] == dm[j]);
            }
        }
        lemma_decimal_reads_back(m, s, i);
        assert(s[e - 1] == digit_char(n % 10)) by {
            assert(s.subrange(i, e)[d.len() - 1] == s[e - 1]);
        }
    }
}

/// Where a run of digits ends.
pub(crate) proof fn lemma_digits_end(s: Seq<char>, i: int, e: int)
    requires
        0 <= i <= e <= s.len(),
        forall|j: int| i <= j < e ==> ascii_digit(#[trigger] s[j]),
        e == s.len() || !ascii_digit(s[e]),
    ensures
        ascii_digits_end(s, i) == e,
    decreases e - i,
{
    if i < e {
        lemma_digits_end(s, i + 1, e);
    }
}

/// Every word the writers give a piece in a move reads back as that piece.
pub proof fn every_move_word_reads_back(k: Kind, s: Seq<char>, i: int)
    requires
        0 <= i,
        i + spec_move_word(k).len() <= s.len(),
        s.subrange(i, i + spec_move_word(k).len()) == spec_move_word(k),
    ensures
        piece_word(s, i) == Some((k, i + spec_move_word(k).len())),
{
    reveal_strlit("歩");
    reveal_strlit("香");
    reveal_strlit("桂");
    reveal_strlit("銀");
    reveal_strlit("金");
    reveal_strlit("角");
    reveal_strlit("飛");
    reveal_strlit("玉");
    reveal_strlit("と");
    reveal_strlit("成香");
    reveal_strlit("成桂");
    reveal_strlit("成銀");
    reveal_strlit("馬");
    reveal_strlit("龍");
    let w = spec_move_word(k);
    assert(s[i] == w[0]) by { assert(s.subrange(i, i + w.len())[0] == s[i]); }
    if w.len() > 1 {
        assert(s[i + 1] == w[1]) by { assert(s.subrange(i, i + w.len())[1] == s[i + 1]); }
    }
}

/// The outcome word KIF writes for `sp`, written at `i`, is the word the
/// reader finds there.
pub(crate) proof fn lemma_outcome_word_reads_back(sp: MoveSpecial, s: Seq<char>, i: int)
    requires
        0 <= i,
        i + kif_special_word(sp).len() <= s.len(),
        s.subrange(i, i + kif_special_word(sp).len()) == kif_special_word(sp),
    ensures
        outcome_word_here(s, i) == Some(kif_special_word(sp)),
{
    reveal_strlit("切れ負け");
    reveal_strlit("入玉勝ち");
    reveal_strlit("反則負け");
    reveal_strlit("反則勝ち");
    reveal_strlit("不戦勝");
    reveal_strlit("不戦敗");
    reveal_strlit("千日手");
    reveal_strlit("持将棋");
    reveal_strlit("投了");
    reveal_strlit("中断");
    reveal_strlit("詰み");
    reveal_strlit("不詰");
    let w = kif_special_word(sp);
    let t = s.subrange(i, i + w.len());
    assert(w.len() >= 2);
    assert(s[i] == w[0] && s[i + 1] == w[1]) by {
        assert(t[0] == s[i] && t[1] == s[i + 1]);
    }
    if w.len() > 2 {
        assert(s[i + 2] == w[2]) by { assert(t[2] == s[i + 2]); }
    }
    assert(lit_at(s, i, w));
}

/// A number `n` written from `j` to `e` with leading zeros or none, and no
/// digit after it, is read as `n`.
proof fn lemma_number_at(s: Seq<char>, j: int, e: int, n: int, max: int)
    requires
        0 <= j < e < s.len(),
        forall|x: int| j <= x < e ==> ascii_digit(#[trigger] s[x]),
        !ascii_digit(s[e]),
        decimal_value(s, j, e) == n,
        n <= max,
    ensures
        small_number_at(s, j, max) == Some((n, e)),
{
    lemma_digits_end(s, j, e);
}

/// Where `two_digits(n)` written at `j` ends, and that it reads as `n`.
proof fn lemma_two_digits_at(n: nat, s: Seq<char>, j: int)
    requires
        0 <= j,
        j + two_digits(n).len() < s.len(),
        s.subrange(j, j + two_digits(n).len()) == two_digits(n),
        !ascii_digit(s[j + two_digits(n).len()]),
        n <= 65535,
    ensures
        two_digits(n).len() >= 2,
        small_number_at(s, j, 65535) == Some((n as int, j + two_digits(n).len())),
        !spec_is_padding(s[j]),
{
    lemma_decimal_digits(n);
    let d = decimal(n);
    let t = two_digits(n);
    let e = j + t.len();
    if d.len() >= 2 {
        assert(t == d);
        lemma_decimal_reads_back(n, s, j);
    } else {
        assert(t =~= seq!['0'] + d);
        assert(s[j] == '0') by { assert(s.subrange(j, e)[0] == s[j]); }
        assert(s.subrange(j + 1, e) =~= d) by {
            assert forall|x: int| 0 <= x < d.len() implies s.subrange(j + 1, e)[x] == d[x] by {
                assert(s.subrange(j, e)[x + 1] == s[j + 1 + x]);
            }
        }
        lemma_decimal_reads_back(n, s, j + 1);
        assert(e == j + 2);
        assert(decimal_value(s, j, j) == 0);
        assert(decimal_value(s, j, j + 1) == 0);
        assert(decimal_value(s, j + 1, j + 1) == 0);
        assert(decimal_value(s, j + 1, j + 2) == s[j + 1] as int - '0' as int);
        assert(decimal_value(s, j, j + 2) == s[j + 1] as int - '0' as int);
        assert(decimal_value(s, j, e) == n);
    }
    assert(s[j] == t[0]) by { assert(s.subrange(j, e)[0] == s[j]); }
    assert forall|x: int| j <= x < e implies ascii_digit(#[trigger] s[x]) by {
        assert(s.subrange(j, e)[x - j] == s[x]);
        if d.len() < 2 && x > j {
            assert(t[x - j] == d[x - j - 1]);
        }
    }
    lemma_number_at(s, j, e, n as int, 65535);
}

/// A number written as the minutes of a move's time (padded with a space to
/// two columns) from `j`, with no digit after it, is read as that number once
/// the padding is skipped.
proof fn lemma_minutes_at(m: nat, s: Seq<char>, j: int)
    requires
        0 <= j,
        j + pad_left(decimal(m), 2, ' ').len() < s.len(),
        s.subrange(j, j + pad_left(decimal(m), 2, ' ').len()) == pad_left(decimal(m), 2, ' '),
        !ascii_digit(s[j + pad_left(decimal(m), 2, ' ').len()]),
        m <= 65535,
    ensures
        pad_left(decimal(m), 2, ' ').len() >= 2,
        small_number_at(s, padding_end(s, j), 65535) == Some((m as int, j + pad_left(decimal(m), 2, ' ').len())),
{
    lemma_decimal_digits(m);
    let d = decimal(m);
    let t = pad_left(d, 2, ' ');
    let e = j + t.len();
    let k = t.len() - d.len();
    if d.len() < 2 {
        assert(t =~= seq![' '] + d);
        assert(s[j] == ' ') by { assert(s.subrange(j, e)[0] == s[j]); }
    } else {
        assert(t == d);
    }
    assert(s.subrange(j + k, e) =~= d) by {
        assert forall|x: int| 0 <= x < d.len() implies s.subrange(j + k, e)[x] == d[x] by {
            assert(s.subrange(j, e)[x + k] == s[j + k + x]);
        }
    }
    lemma_decimal_reads_back(m, s, j + k);
    assert(!spec_is_padding(s[j + k]));
    if k == 1 {
        assert(padding_end(s, j + 1) == j + 1);
    }
    assert(padding_end(s, j) == j + k);
    lemma_number_at(s, j + k, e, m as int, 65535);
}

/// The minutes a move's time is written with: its hours fold into them.
pub open spec fn folded_minutes(t: TimeFormat) -> nat {
    ((match t.h { Some(h) => h as nat, None => 0nat }) * 60 + t.m) as nat
}

/// What the reader gives back of a time the KIF writer writes: the move's
/// own time as minutes and seconds, the running total with its hours.
pub open spec fn time_as_read(t: Time) -> Time {
    Time {
        now: TimeFormat { h: None, m: folded_minutes(t.now) as u16, s: t.now.s },
        total: TimeFormat { h: Some(match t.total.h { Some(h) => h, None => 0u16 }), m: t.total.m, s: t.total.s },
    }
}

/// Text `a + b` written at `i`: `a` at `i`, and `b` after it.
pub(crate) proof fn lemma_split(s: Seq<char>, i: int, a: Seq<char>, b: Seq<char>)
    requires
        0 <= i,
        i + a.len() + b.len() <= s.len(),
        s.subrange(i, i + a.len() + b.len()) == a + b,
    ensures
        s.subrange(i, i + a.len()) == a,
        s.subrange(i + a.len(), i + a.len() + b.len()) == b,
{
    let w = s.subrange(i, i + a.len() + b.len());
    assert(s.subrange(i, i + a.len()) =~= a) by {
        assert forall|x: int| 0 <= x < a.len() implies s.subrange(i, i + a.len())[x] == a[x] by {
            assert(w[x] == s[i + x]);
        }
    }
    assert(s.subrange(i + a.len(), i + a.len() + b.len()) =~= b) by {
        assert forall|x: int| 0 <= x < b.len() implies s.subrange(i + a.len(), i + a.len() + b.len())[x] == b[x] by {
            assert(w[a.len() + x] == s[i + a.len() + x]);
        }
    }
}

/// A one-character text written at `i` is that character.
pub(crate) proof fn lemma_char(s: Seq<char>, i: int, c: char)
    requires
        0 <= i,
        i + 1 <= s.len(),
        s.subrange(i, i + 1) == seq![c],
    ensures
        s[i] == c,
{
    assert(s.subrange(i, i + 1)[0] == s[i]);
}

/// The move's own time at `i`, read as minutes and seconds, where a `/`
/// follows it.
proof fn lemma_move_time_reads_back(t: TimeFormat, s: Seq<char>, i: int)
    requires
        folded_minutes(t) <= 65535,
        0 <= i,
        i + move_time_text(t).len() < s.len(),
        s.subrange(i, i + move_time_text(t).len()) == move_time_text(t),
        s[i + move_time_text(t).len()] == '/',
    ensures
        spec_move_time_format(s, padding_end(s, i))
            == Some((TimeFormat { h: None, m: folded_minutes(t) as u16, s: t.s }, i + move_time_text(t).len())),
{
    reveal_strlit(":");
    let pl = pad_left(decimal(folded_minutes(t)), 2, ' ');
    let d1 = two_digits(t.s as nat);
    assert(move_time_text(t) == pl + seq![':'] + d1);
    lemma_split(s, i, pl + seq![':'], d1);
    lemma_split(s, i, pl, seq![':']);
    let a1 = i + pl.len();
    lemma_char(s, a1, ':');
    lemma_minutes_at(folded_minutes(t), s, i);
    lemma_two_digits_at(t.s as nat, s, a1 + 1);
}

/// The running total at `i`, read with its hours, where a `)` follows it.
proof fn lemma_total_time_reads_back(t: TimeFormat, s: Seq<char>, i: int)
    requires
        0 <= i,
        i + total_time_text(t).len() < s.len(),
        s.subrange(i, i + total_time_text(t).len()) == total_time_text(t),
        s[i + total_time_text(t).len()] == ')',
    ensures
        spec_move_time_format(s, i)
            == Some((TimeFormat { h: Some(match t.h { Some(h) => h, None => 0u16 }), m: t.m, s: t.s }, i + total_time_text(t).len())),
{
    reveal_strlit(":");
    let hours: nat = match t.h { Some(h) => h as nat, None => 0nat };
    let h = two_digits(hours);
    let m = two_digits(t.m as nat);
    let sec = two_digits(t.s as nat);
    assert(total_time_text(t) == h + seq![':'] + m + seq![':'] + sec);
    lemma_split(s, i, h + seq![':'] + m + seq![':'], sec);
    lemma_split(s, i, h + seq![':'] + m, seq![':']);
    lemma_split(s, i, h + seq![':'], m);
    lemma_split(s, i, h, seq![':']);
    let b1 = i + h.len();
    let b3 = b1 + 1 + m.len();
    lemma_char(s, b1, ':');
    lemma_char(s, b3, ':');
    lemma_two_digits_at(hours, s, i);
    lemma_two_digits_at(t.m as nat, s, b1 + 1);
    lemma_two_digits_at(t.s as nat, s, b3 + 1);
}

/// A time the KIF writer writes, at `i`, reads back (see [`time_as_read`])
/// when its minutes fit what the reader holds.
pub(crate) proof fn lemma_time_reads_back(t: Time, s: Seq<char>, i: int)
    requires
        folded_minutes(t.now) <= 65535,
        0 <= i,
        i + time_text(t).len() <= s.len(),
        s.subrange(i, i + time_text(t).len()) == time_text(t),
    ensures
        spec_move_time(s, i) == Some((time_as_read(t), i + time_text(t).len())),
{
    reveal_strlit("(");
    reveal_strlit(")");
    reveal_strlit("/");
    let mt = move_time_text(t.now);
    let tt = total_time_text(t.total);
    assert(time_text(t) == seq!['('] + mt + seq!['/'] + tt + seq![')']);
    lemma_split(s, i, seq!['('] + mt + seq!['/'] + tt, seq![')']);
    lemma_split(s, i, seq!['('] + mt + seq!['/'], tt);
    lemma_split(s, i, seq!['('] + mt, seq!['/']);
    lemma_split(s, i, seq!['('], mt);
    let a = i + 1;
    let slash = a + mt.len();
    let b = slash + 1;
    let close = b + tt.len();
    lemma_char(s, i, '(');
    lemma_char(s, slash, '/');
    lemma_char(s, close, ')');
    lemma_move_time_reads_back(t.now, s, a);
    lemma_total_time_reads_back(t.total, s, b);
    assert(padding_end(s, slash) == slash);
    assert(padding_end(s, b) == b) by {
        lemma_two_digits_at_start(t.total, s, b);
    }
    assert(padding_end(s, close) == close);
}

proof fn lemma_two_digits_at_start(t: TimeFormat, s: Seq<char>, b: int)
    requires
        0 <= b,
        b + total_time_text(t).len() <= s.len(),
        s.subrange(b, b + total_time_text(t).len()) == total_time_text(t),
    ensures
        !spec_is_padding(s[b]),
{
    let hours: nat = match t.h { Some(h) => h as nat, None => 0nat };
    lemma_decimal_digits(hours);
    let h = two_digits(hours);
    assert(total_time_text(t)[0] == h[0]);
    if decimal(hours).len() < 2 {
        assert(h =~= seq!['0'] + decimal(hours));
    }
    assert(ascii_digit(h[0]));
    assert(s.subrange(b, b + total_time_text(t).len())[0] == s[b]);
}

/// What the reader gives back of a move the KIF writer writes: `同` for a
/// recapture (no square), the piece, `成` only when the move promotes (KIF
/// never writes `不成`), and the origin (none for a drop).
pub open spec fn move_as_read(m: MoveMoveFormat) -> BodyView {
    BodyView::Move {
        to: if m.same is Some { None } else { Some(m.to) },
        piece: m.piece,
        promote: if m.promote == Some(true) { Some(true) } else { None },
        from: m.from,
    }
}

proof fn lemma_square_words(x: u8, y: u8)
    requires
        1 <= x <= 9,
        1 <= y <= 9,
    ensures
        file_digit(sanyou_suji(x as int)) == Some(x),
        rank_numeral(kansuji(y as int)) == Some(y),
{
}

proof fn lemma_digit_char_value(d: nat)
    requires
        d <= 9,
    ensures
        digit_char(d) as int - '0' as int == d,
        ascii_digit(digit_char(d)),
{
}

/// Where a move goes, as the writer spells it at `i`, read back; the piece's
/// word follows it.
proof fn lemma_destination_reads_back(m: MoveMoveFormat, s: Seq<char>, i: int)
    requires
        m.same is None ==> 1 <= m.to.x <= 9 && 1 <= m.to.y <= 9,
        0 <= i,
        i + 2 + spec_move_word(m.piece).len() <= s.len(),
        s.subrange(i, i + 2) == (if m.same is Some { "同　"@ } else { seq![sanyou_suji(m.to.x as int), kansuji(m.to.y as int)] }),
        s.subrange(i + 2, i + 2 + spec_move_word(m.piece).len()) == spec_move_word(m.piece),
    ensures
        move_to(s, i) == Some((if m.same is Some { None } else { Some(m.to) }, i + 2)),
        !(s[i] == '▲' || s[i] == '△'),
{
    reveal_strlit("同　");
    let dest = s.subrange(i, i + 2);
    assert(s[i] == dest[0] && s[i + 1] == dest[1]);
    if m.same is Some {
        reveal_strlit("歩");
        reveal_strlit("香");
        reveal_strlit("桂");
        reveal_strlit("銀");
        reveal_strlit("金");
        reveal_strlit("角");
        reveal_strlit("飛");
        reveal_strlit("玉");
        reveal_strlit("と");
        reveal_strlit("成香");
        reveal_strlit("成桂");
        reveal_strlit("成銀");
        reveal_strlit("馬");
        reveal_strlit("龍");
        let w = spec_move_word(m.piece);
        assert(s.subrange(i + 2, i + 2 + w.len())[0] == s[i + 2]);
        assert(padding_end(s, i + 2) == i + 2);
        assert(padding_end(s, i + 1) == i + 2);
    } else {
        lemma_square_words(m.to.x, m.to.y);
    }
}

/// Where a move came from, as the writer spells it at `e`, read back.
proof fn lemma_origin_reads_back(from: Option<PlaceFormat>, s: Seq<char>, e: int)
    requires
        from matches Some(p) ==> 1 <= p.x <= 9 && 1 <= p.y <= 9,
        0 <= e,
        e + (match from { Some(p) => origin_text(p).0, None => "打"@ }).len() <= s.len(),
        s.subrange(e, e + (match from { Some(p) => origin_text(p).0, None => "打"@ }).len())
            == (match from { Some(p) => origin_text(p).0, None => "打"@ }),
    ensures
        origin_at(s, e) == Ok::<(Option<PlaceFormat>, int), bool>((from, e + (match from { Some(p) => origin_text(p).0, None => "打"@ }).len())),
        s[e] == (if from is Some { '(' } else { '打' }),
{
    reveal_strlit("打");
    reveal_strlit("(");
    reveal_strlit(")");
    match from {
        Some(p) => {
            let dx = decimal(p.x as nat);
            let dy = decimal(p.y as nat);
            assert(dx == seq![digit_char(p.x as nat)]);
            assert(dy == seq![digit_char(p.y as nat)]);
            assert(origin_text(p).0 =~= seq!['(', digit_char(p.x as nat), digit_char(p.y as nat), ')']);
            let o = s.subrange(e, e + 4);
            assert(o[0] == s[e] && o[1] == s[e + 1] && o[2] == s[e + 2] && o[3] == s[e + 3]);
            lemma_digit_char_value(p.x as nat);
            lemma_digit_char_value(p.y as nat);
            lemma_digits_end(s, e + 1, e + 3);
            assert(decimal_value(s, e + 1, e + 1) == 0);
            assert(decimal_value(s, e + 1, e + 2) == p.x);
            assert(decimal_value(s, e + 1, e + 3) == p.x * 10 + p.y);
            assert(small_number_at(s, e + 1, 255) == Some(((p.x * 10 + p.y) as int, e + 3)));
        },
        None => {
            assert(s.subrange(e, e + 1)[0] == s[e]);
        },
    }
}

/// A move the KIF writer writes, at `i`, reads back (see [`move_as_read`])
/// when its destination is a square the reader knows.
pub(crate) proof fn lemma_move_reads_back(m: MoveMoveFormat, s: Seq<char>, i: int)
    requires
        kif_move_text(m).1 is None,
        m.same is None ==> 1 <= m.to.y <= 9,
        0 <= i,
        i + kif_move_text(m).0.len() <= s.len(),
        s.subrange(i, i + kif_move_text(m).0.len()) == kif_move_text(m).0,
    ensures
        move_body_at(s, i) == Ok::<(BodyView, int), bool>((move_as_read(m), i + kif_move_text(m).0.len())),
{
    reveal_strlit("同　");
    reveal_strlit("成");
    reveal_strlit("打");
    let dest = if m.same is Some { "同　"@ } else { seq![sanyou_suji(m.to.x as int), kansuji(m.to.y as int)] };
    let word = spec_move_word(m.piece);
    let promo = if m.promote == Some(true) { "成"@ } else { Seq::empty() };
    let origin = match m.from { Some(p) => origin_text(p).0, None => "打"@ };
    assert(kif_move_text(m).0 == dest + (word + promo + origin));
    assert(kif_move_text(m).0 =~= dest + word + promo + origin);
    lemma_split(s, i, dest + word + promo, origin);
    lemma_split(s, i, dest + word, promo);
    lemma_split(s, i, dest, word);
    let b = i + 2;
    let c = b + word.len();
    let e = c + promo.len();
    lemma_destination_reads_back(m, s, i);
    every_move_word_reads_back(m.piece, s, b);
    lemma_origin_reads_back(m.from, s, e);
    if m.promote == Some(true) {
        assert(s[c] == '成') by { assert(s.subrange(c, c + 1)[0] == s[c]); }
    }
}

/// A number padded with spaces to `width` columns, from `j`, with no digit
/// after it, is read as that number once the padding is skipped.
proof fn lemma_padded_number_at(n: nat, width: nat, max: int, s: Seq<char>, j: int)
    requires
        0 <= j,
        j + pad_left(decimal(n), width, ' ').len() < s.len(),
        s.subrange(j, j + pad_left(decimal(n), width, ' ').len()) == pad_left(decimal(n), width, ' '),
        !ascii_digit(s[j + pad_left(decimal(n), width, ' ').len()]),
        n <= max,
    ensures
        small_number_at(s, padding_end(s, j), max) == Some((n as int, j + pad_left(decimal(n), width, ' ').len())),
{
    lemma_decimal_digits(n);
    let d = decimal(n);
    let t = pad_left(d, width, ' ');
    let e = j + t.len();
    let k = t.len() - d.len();
    assert(s.subrange(j + k, e) =~= d) by {
        assert forall|x: int| 0 <= x < d.len() implies s.subrange(j + k, e)[x] == d[x] by {
            assert(s.subrange(j, e)[x + k] == s[j + k + x]);
        }
    }
    lemma_decimal_reads_back(n, s, j + k);
    assert forall|x: int| j <= x < j + k implies spec_is_padding(#[trigger] s[x]) by {
        assert(s.subrange(j, e)[x - j] == s[x]);
    }
    lemma_padding_over(s, j, j + k);
    lemma_number_at(s, j + k, e, n as int, max);
}

/// Padding from `j` up to a character that is none ends there.
proof fn lemma_padding_over(s: Seq<char>, j: int, e: int)
    requires
        0 <= j <= e < s.len(),
        forall|x: int| j <= x < e ==> spec_is_padding(#[trigger] s[x]),
        !spec_is_padding(s[e]),
    ensures
        padding_end(s, j) == e,
    decreases e - j,
{
    if j < e {
        lemma_padding_over(s, j + 1, e);
    }
}

/// What a line the KIF writer writes for a node says, read back: its move
/// (see [`move_as_read`]) or its outcome word.
pub open spec fn body_as_read(n: MoveFormat) -> BodyView {
    match n.move_ {
        Some(m) => move_as_read(m),
        None => BodyView::Outcome(kif_special_word(n.special.unwrap())),
    }
}

/// Whether the move line the KIF writer writes for `n` is one the reader can
/// read back: the move's destination is on the board when it is spelled out,
/// and the minutes of its time fit what the reader holds.
pub open spec fn move_line_reads_back(n: MoveFormat) -> bool {
    &&& (n.move_ matches Some(m) ==> (m.same is None ==> 1 <= m.to.y <= 9))
    &&& (n.time matches Some(t) ==> folded_minutes(t.now) <= 65535)
}

/// No outcome word starts with `同` or a full-width digit.
#[verifier::spinoff_prover]
proof fn lemma_no_outcome_word_at(s: Seq<char>, q: int)
    requires
        0 <= q < s.len(),
        s[q] == '同' || file_digit(s[q]) is Some,
    ensures
        outcome_word_here(s, q) is None,
{
    reveal_strlit("切れ負け");
    reveal_strlit("入玉勝ち");
    reveal_strlit("反則負け");
    reveal_strlit("反則勝ち");
    reveal_strlit("不戦勝");
    reveal_strlit("不戦敗");
    reveal_strlit("千日手");
    reveal_strlit("持将棋");
    reveal_strlit("投了");
    reveal_strlit("中断");
    reveal_strlit("詰み");
    reveal_strlit("不詰");
    if lit_at(s, q, "切れ負け"@) { assert(s.subrange(q, q + 4)[0] == s[q]); }
    if lit_at(s, q, "入玉勝ち"@) { assert(s.subrange(q, q + 4)[0] == s[q]); }
    if lit_at(s, q, "反則負け"@) { assert(s.subrange(q, q + 4)[0] == s[q]); }
    if lit_at(s, q, "反則勝ち"@) { assert(s.subrange(q, q + 4)[0] == s[q]); }
    if lit_at(s, q, "不戦勝"@) { assert(s.subrange(q, q + 3)[0] == s[q]); }
    if lit_at(s, q, "不戦敗"@) { assert(s.subrange(q, q + 3)[0] == s[q]); }
    if lit_at(s, q, "千日手"@) { assert(s.subrange(q, q + 3)[0] == s[q]); }
    if lit_at(s, q, "持将棋"@) { assert(s.subrange(q, q + 3)[0] == s[q]); }
    if lit_at(s, q, "投了"@) { assert(s.subrange(q, q + 2)[0] == s[q]); }
    if lit_at(s, q, "中断"@) { assert(s.subrange(q, q + 2)[0] == s[q]); }
    if lit_at(s, q, "詰み"@) { assert(s.subrange(q, q + 2)[0] == s[q]); }
    if lit_at(s, q, "不詰"@) { assert(s.subrange(q, q + 2)[0] == s[q]); }
}

/// What a node's line says opens with something that is neither padding nor
/// a digit; a move opens with no outcome word.
#[verifier::spinoff_prover]
proof fn lemma_body_starts(n: MoveFormat, s: Seq<char>, q: int)
    requires
        n.spec_occupies_a_ply(),
        move_line_reads_back(n),
        node_body(n).1 is None,
        0 <= q,
        q + node_body(n).0.len() <= s.len(),
        s.subrange(q, q + node_body(n).0.len()) == node_body(n).0,
    ensures
        node_body(n).0.len() >= 2,
        !spec_is_padding(s[q]),
        !ascii_digit(s[q]),
        n.move_ is Some ==> outcome_word_here(s, q) is None,
{
    reveal_strlit("同　");
    let b = node_body(n).0;
    match n.move_ {
        Some(m) => {
            let dest = if m.same is Some { "同　"@ } else { seq![sanyou_suji(m.to.x as int), kansuji(m.to.y as int)] };
            let word = spec_move_word(m.piece);
            let promo = if m.promote == Some(true) { "成"@ } else { Seq::empty() };
            let origin = match m.from { Some(p) => origin_text(p).0, None => "打"@ };
            assert(b == dest + (word + promo + origin));
            assert(b[0] == dest[0]);
            assert(s.subrange(q, q + b.len())[0] == s[q]);
            if m.same is None {
                lemma_square_words(m.to.x, m.to.y);
            }
            lemma_no_outcome_word_at(s, q);
        },
        None => {
            reveal_strlit("切れ負け");
            reveal_strlit("入玉勝ち");
            reveal_strlit("反則負け");
            reveal_strlit("反則勝ち");
            reveal_strlit("千日手");
            reveal_strlit("持将棋");
            reveal_strlit("投了");
            reveal_strlit("中断");
            reveal_strlit("詰み");
            reveal_strlit("不詰");
            assert(b == kif_special_word(n.special.unwrap()));
            assert(s.subrange(q, q + b.len())[0] == s[q]);
        },
    }
}

/// What the writer puts after a node's move or outcome word: the time column
/// when the node has a time.
spec fn line_tail(n: MoveFormat) -> Seq<char> {
    match n.time {
        Some(t) => padding_to_time(node_width(n)) + time_text(t),
        None => Seq::empty(),
    }
}

/// Where each piece of a node's line stands: the ply (padded to four
/// columns) and a space, what the line says, the time column, the ending.
proof fn lemma_line_layout(n: MoveFormat, ply: u64)
    requires
        node_line(n, ply).1 is None,
    ensures
        ({
            let s = node_line(n, ply).0;
            let pl = pad_left(decimal(ply as nat), 4, ' ');
            let q = pl.len() as int + 1;
            let e = q + node_body(n).0.len();
            &&& node_body(n).1 is None
            &&& s.len() == e + line_tail(n).len() + 1
            &&& s.subrange(0, pl.len() as int) == pl
            &&& s[pl.len() as int] == ' '
            &&& s.subrange(q, e) == node_body(n).0
            &&& s.subrange(e, e + line_tail(n).len()) == line_tail(n)
            &&& s[e + line_tail(n).len()] == '\n'
        }),
{
    reveal_strlit(" ");
    reveal_strlit("\n");
    let pl = pad_left(decimal(ply as nat), 4, ' ');
    let head = pl + " "@;
    let body = node_body(n).0;
    let tail = line_tail(n);
    let s = node_line(n, ply).0;
    assert(s == head + (body + (tail + "\n"@)));
    assert(s =~= head + body + tail + "\n"@);
    assert(s.subrange(0, s.len() as int) =~= s);
    lemma_split(s, 0, head + body + tail, "\n"@);
    lemma_split(s, 0, head + body, tail);
    lemma_split(s, 0, head, body);
    lemma_split(s, 0, pl, " "@);
    assert(" "@ =~= seq![' ']);
    assert("\n"@ =~= seq!['\n']);
    lemma_char(s, pl.len() as int, ' ');
    lemma_char(s, (head.len() + body.len() + tail.len()) as int, '\n');
}

/// A ply written as the writer writes it, padded to four columns, with a
/// space after it and something other than padding after that, read.
proof fn lemma_ply_read(s: Seq<char>, ply: nat)
    requires
        ply <= usize::MAX,
        pad_left(decimal(ply), 4, ' ').len() + 1 < s.len(),
        s.subrange(0, pad_left(decimal(ply), 4, ' ').len() as int) == pad_left(decimal(ply), 4, ' '),
        s[pad_left(decimal(ply), 4, ' ').len() as int] == ' ',
        !spec_is_padding(s[pad_left(decimal(ply), 4, ' ').len() as int + 1]),
    ensures
        small_number_at(s, padding_end(s, 0), usize::MAX as int) == Some((ply as int, pad_left(decimal(ply), 4, ' ').len() as int)),
        padding_end(s, pad_left(decimal(ply), 4, ' ').len() as int) == pad_left(decimal(ply), 4, ' ').len() + 1,
{
    let l = pad_left(decimal(ply), 4, ' ').len() as int;
    lemma_padded_number_at(ply, 4, usize::MAX as int, s, 0);
    assert forall|x: int| l <= x < l + 1 implies spec_is_padding(#[trigger] s[x]) by {}
    lemma_padding_over(s, l, l + 1);
}

/// The ply of a node's line, read.
#[verifier::spinoff_prover]
proof fn lemma_line_ply(n: MoveFormat, ply: u64)
    requires
        n.spec_occupies_a_ply(),
        node_line(n, ply).1 is None,
        ply <= usize::MAX,
        move_line_reads_back(n),
    ensures
        ({
            let s = node_line(n, ply).0;
            let pl = pad_left(decimal(ply as nat), 4, ' ');
            &&& small_number_at(s, padding_end(s, 0), usize::MAX as int) == Some((ply as int, pl.len() as int))
            &&& padding_end(s, pl.len() as int) == pl.len() + 1
        }),
{
    lemma_line_layout(n, ply);
    let s = node_line(n, ply).0;
    let q = pad_left(decimal(ply as nat), 4, ' ').len() as int + 1;
    lemma_body_starts(n, s, q);
    lemma_ply_read(s, ply as nat);
}

/// What a node's line says, read.
#[verifier::spinoff_prover]
proof fn lemma_line_body(n: MoveFormat, ply: u64)
    requires
        n.spec_occupies_a_ply(),
        node_line(n, ply).1 is None,
        move_line_reads_back(n),
    ensures
        ({
            let s = node_line(n, ply).0;
            let q = pad_left(decimal(ply as nat), 4, ' ').len() as int + 1;
            (match outcome_word_here(s, q) {
                Some(w) => Ok((BodyView::Outcome(w), q + w.len())),
                None => move_body_at(s, q),
            }) == Ok::<(BodyView, int), bool>((body_as_read(n), q + node_body(n).0.len()))
        }),
{
    lemma_line_layout(n, ply);
    let s = node_line(n, ply).0;
    let q = pad_left(decimal(ply as nat), 4, ' ').len() as int + 1;
    lemma_body_starts(n, s, q);
    match n.move_ {
        Some(m) => {
            assert(node_body(n).0 == kif_move_text(m).0);
            lemma_move_reads_back(m, s, q);
        },
        None => {
            lemma_outcome_word_reads_back(n.special.unwrap(), s, q);
        },
    }
}

/// A time column written at `e`, read, up to the line's ending.
#[verifier::spinoff_prover]
proof fn lemma_time_column(n: MoveFormat, t: Time, s: Seq<char>, e: int)
    requires
        n.time == Some(t),
        folded_minutes(t.now) <= 65535,
        0 <= e,
        e + line_tail(n).len() <= s.len(),
        s.subrange(e, e + line_tail(n).len()) == line_tail(n),
    ensures
        spec_move_time(s, padding_end(s, e)) == Some((time_as_read(t), e + line_tail(n).len())),
{
    let pt = padding_to_time(node_width(n));
    lemma_split(s, e, pt, time_text(t));
    assert forall|x: int| e <= x < e + pt.len() implies spec_is_padding(#[trigger] s[x]) by {
        assert(s.subrange(e, e + pt.len())[x - e] == s[x]);
    }
    reveal_strlit("(");
    assert(time_text(t)[0] == '(');
    assert(s.subrange(e + pt.len(), e + pt.len() + time_text(t).len())[0] == s[e + pt.len()]);
    lemma_padding_over(s, e, e + pt.len());
    lemma_time_reads_back(t, s, e + pt.len());
}

/// The time of a node's line, read, up to the line's ending.
#[verifier::spinoff_prover]
proof fn lemma_line_time(n: MoveFormat, ply: u64)
    requires
        n.spec_occupies_a_ply(),
        node_line(n, ply).1 is None,
        move_line_reads_back(n),
    ensures
        ({
            let s = node_line(n, ply).0;
            let e = pad_left(decimal(ply as nat), 4, ' ').len() as int + 1 + node_body(n).0.len();
            let r = padding_end(s, e);
            (match spec_move_time(s, r) {
                Some((t, f)) => (Some(t), f),
                None => (None, r),
            }) == (match n.time { Some(t) => Some(time_as_read(t)), None => None }, s.len() - 1)
        }),
{
    lemma_line_layout(n, ply);
    let s = node_line(n, ply).0;
    let e = pad_left(decimal(ply as nat), 4, ' ').len() as int + 1 + node_body(n).0.len();
    match n.time {
        Some(t) => {
            lemma_time_column(n, t, s, e);
        },
        None => {
            assert(line_tail(n).len() == 0);
            assert(padding_end(s, e) == e);
        },
    }
}

/// A move line the KIF writer writes for a node reads back as that node: its
/// ply, its move (see [`move_as_read`]) or outcome word, and its time (see
/// [`time_as_read`]); the reader stops at the line's ending. This holds for
/// every node the writer spells whose line the reader can hold (see
/// [`move_line_reads_back`]).
pub proof fn a_written_move_line_reads_back(n: MoveFormat, ply: u64)
    requires
        n.spec_occupies_a_ply(),
        node_line(n, ply).1 is None,
        ply <= usize::MAX,
        move_line_reads_back(n),
    ensures
        numbered_line_at(node_line(n, ply).0, 0) == Ok::<(int, BodyView, Option<Time>, int), bool>((
            ply as int,
            body_as_read(n),
            match n.time {
                Some(t) => Some(time_as_read(t)),
                None => None,
            },
            node_line(n, ply).0.len() - 1,
        )),
{
    lemma_line_ply(n, ply);
    lemma_line_body(n, ply);
    lemma_line_time(n, ply);
}

/// A comment the writer writes (`*` and the comment, or a bookmark `&…` as it
/// is) reads back as that comment, when it holds no line ending.
pub proof fn a_written_comment_reads_back(c: Seq<char>, rest: Seq<char>)
    requires
        forall|j: int| 0 <= j < c.len() ==> !is_line_end_char(#[trigger] c[j]),
    ensures
        comment_text_line(comment_line(c) + rest, 0) == Some((c, comment_line(c).len() as int)),
{
    reveal_strlit("&");
    reveal_strlit("*");
    reveal_strlit("\n");
    let bookmark = seq_starts_with(c, "&"@);
    let mark: Seq<char> = if bookmark { Seq::empty() } else { "*"@ };
    let l = comment_line(c);
    let s = l + rest;
    assert(l == mark + c + "\n"@);
    let m = mark.len() as int;
    let e = m + c.len();
    assert(s[e] == '\n');
    assert forall|x: int| 0 <= x < c.len() implies #[trigger] s[m + x] == c[x] by {}
    if bookmark {
        assert(c[0] == '&') by { assert(c.subrange(0, 1)[0] == c[0]); }
        assert(s[0] == c[0]);
    } else {
        assert(s[0] == '*');
    }
    assert(padding_end(s, 0) == 0);
    assert forall|x: int| 1 <= x < e implies !is_line_end_char(#[trigger] s[x]) by {
        assert(s[m + (x - m)] == c[x - m]);
    }
    lemma_line_stop_at(s, 1, e);
    assert(not_line_ending(s, 1) == Some(e));
    assert(eol_at(s, e) == Some(e + 1));
    if bookmark {
        assert(seq!['&'] + s.subrange(1, e) =~= c) by {
            assert forall|x: int| 0 <= x < c.len() implies (seq!['&'] + s.subrange(1, e))[x] == c[x] by {
                if x > 0 {
                    assert(s.subrange(1, e)[x - 1] == s[0 + x]);
                }
            }
        }
    } else {
        assert(s.subrange(1, e) =~= c) by {
            assert forall|x: int| 0 <= x < c.len() implies s.subrange(1, e)[x] == c[x] by {
                assert(s[1 + x] == c[x]);
            }
        }
    }
}

} // verus!
