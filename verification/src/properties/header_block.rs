//! What the header-block reader gives back of what the KIF writer writes:
//! a board diagram, a hand, a spelled-out starting position, a handicap's
//! `手合割` line, and the header lines.

use vstd::prelude::*;
use crate::converter::kakinoki::one_line;
use crate::jkf::{Color, Hand, Kind, Preset};
use crate::handicap::table_preset;
use crate::jkf::{Piece, StateFormat};
use crate::converter::kakinoki::{board_cell, board_cells, board_rows};
use crate::notation::kansuji;
use crate::position::cell;
use crate::parser::kakinoki::{board_of_ranks, spec_board_piece, spec_board_row, frame_line, framed_line, files_line, lemma_files_and_frame, padding_end, rank_cells, ranks_from, spec_board, BoardFault};
use crate::converter::{lemma_then_all_step, lemma_then_all_whole, then_all};
use crate::converter::kakinoki::{hand_counts, hand_part, hand_text, hand_value};
use crate::notation::spec_is_padding;
use crate::parser::kakinoki::{eol_at, rank_numeral};
use crate::parser::header_block::{add_entries, hand_entries, hand_entry, kansuji_at, spec_hand_value};
use crate::parser::header_block::{comment_lines_end, comment_text_line, hands_prefix, info_line, key_stop, preset_named_from, spec_comment_line, spec_information_line_hands, spec_information_line_preset, spec_keyvalue, InfoItem, LineFault};
use crate::parser::header_block::{apply_info, empty_info, hand_sum, info_lines, insert_all, merged, side_to_move_line, side_word_at, spec_parse_without_moves, HeaderView, InfoView};
use crate::converter::kakinoki::{initial_data_parts, initial_data_text, preset_line, spec_kakinoki_header};
use crate::converter::header_get;
use crate::parser::header_block::{carries_a_line, colon_at, key_index, map_insert, not_line_ending, trim_end_padding};
use crate::parser::kakinoki::line_stop;
use crate::parser::kakinoki::{is_line_end_char, lit_at, LineShapes};
use crate::handicap::{spec_is_a_known_name, spec_kif_name, trim_padding};

verus! {

/// Whether every square of `b` is empty or holds a piece of a side.
pub open spec fn pieces_are_whole(b: [[Piece; 9]; 9]) -> bool {
    forall|f: int, r: int| 0 <= f < 9 && 0 <= r < 9 ==> ((#[trigger] b@[f]@[r]).color is Some <==> b@[f]@[r].kind is Some)
}

/// The diagram the KIF writer draws for `b`: the file numbers, the frame,
/// the nine ranks, the frame.
pub open spec fn drawn_board(b: [[Piece; 9]; 9]) -> Seq<char> {
    "  ９ ８ ７ ６ ５ ４ ３ ２ １\n+---------------------------+\n"@ + board_rows(b, 9) + "+---------------------------+\n"@
}

/// Rank `r` of `b` as the writer draws it.
pub open spec fn drawn_rank(b: [[Piece; 9]; 9], r: int) -> Seq<char> {
    "|"@ + board_cells(b, r, 9) + "|"@ + seq![kansuji(r + 1)] + "\n"@
}

/// Rank `r` of `b` as a reader gives it back: file 9 first.
pub open spec fn read_rank(b: [[Piece; 9]; 9], r: int, n: int) -> Seq<Piece> {
    Seq::new(n as nat, |m: int| b@[8 - m]@[r])
}

proof fn lemma_cell_reads_back(b: [[Piece; 9]; 9], f: int, r: int, s: Seq<char>, j: int)
    requires
        pieces_are_whole(b),
        0 <= f < 9,
        0 <= r < 9,
        0 <= j,
        j + 2 <= s.len(),
        s.subrange(j, j + 2) == board_cell(b@[f]@[r]),
    ensures
        spec_board_piece(s, j) == Some((b@[f]@[r], j + 2)),
{
    reveal_strlit(" ・");
    let p = b@[f]@[r];
    assert(s[j] == s.subrange(j, j + 2)[0]);
    assert(s[j + 1] == s.subrange(j, j + 2)[1]);
    match cell(p) {
        Some(cp) => {
            assert(p.kind == Some(cp.kind) && p.color == Some(cp.color));
        },
        None => {
            assert(p.kind is None && p.color is None);
            assert(p == Piece::spec_empty());
        },
    }
}

proof fn lemma_cells_len(b: [[Piece; 9]; 9], r: int, n: int)
    requires
        0 <= n,
    ensures
        board_cells(b, r, n).len() == 2 * n,
    decreases n,
{
    reveal_strlit(" ・");
    if n > 0 {
        lemma_cells_len(b, r, n - 1);
    }
}

proof fn lemma_cells_read_back(b: [[Piece; 9]; 9], r: int, n: int, s: Seq<char>, j: int)
    requires
        pieces_are_whole(b),
        0 <= r < 9,
        0 <= n <= 9,
        0 <= j,
        j + 2 * n <= s.len(),
        s.subrange(j, j + 2 * n) == board_cells(b, r, n),
    ensures
        rank_cells(s, j, n) == Some((read_rank(b, r, n), j + 2 * n)),
    decreases n,
{
    if n == 0 {
        assert(read_rank(b, r, 0) =~= Seq::<Piece>::empty());
    } else {
        lemma_cells_len(b, r, n - 1);
        reveal_strlit(" ・");
        let prev = board_cells(b, r, n - 1);
        let last = board_cell(b@[8 - (n - 1)]@[r]);
        let w = s.subrange(j, j + 2 * n);
        assert(w == prev + last);
        assert(last.len() == 2);
        assert(s.subrange(j, j + 2 * (n - 1)) =~= w.subrange(0, 2 * (n - 1)));
        assert(w.subrange(0, 2 * (n - 1)) =~= prev);
        lemma_cells_read_back(b, r, n - 1, s, j);
        assert(s.subrange(j + 2 * (n - 1), j + 2 * n) =~= w.subrange(2 * (n - 1), 2 * n));
        assert(w.subrange(2 * (n - 1), 2 * n) =~= last);
        lemma_cell_reads_back(b, 8 - (n - 1), r, s, j + 2 * (n - 1));
        assert(read_rank(b, r, n - 1).push(b@[8 - (n - 1)]@[r]) =~= read_rank(b, r, n));
    }
}

proof fn lemma_rank_reads_back(b: [[Piece; 9]; 9], r: int, s: Seq<char>, j: int)
    requires
        pieces_are_whole(b),
        0 <= r < 9,
        0 <= j,
        j + 22 <= s.len(),
        s.subrange(j, j + 22) == drawn_rank(b, r),
    ensures
        spec_board_row(s, j) == Some((read_rank(b, r, 9), j + 22)),
{
    reveal_strlit("|");
    reveal_strlit("\n");
    lemma_cells_len(b, r, 9);
    let t = drawn_rank(b, r);
    assert(t.len() == 22);
    assert(s[j] == t[0]);
    assert(t[0] == '|');
    assert(padding_end(s, j) == j);
    assert(s.subrange(j + 1, j + 19) =~= t.subrange(1, 19));
    assert(t.subrange(1, 19) =~= board_cells(b, r, 9));
    lemma_cells_read_back(b, r, 9, s, j + 1);
    assert(s[j + 19] == t[19]);
    assert(t[19] == '|');
    assert(s[j + 20] == t[20]);
    assert(t[20] == kansuji(r + 1));
    assert(s[j + 21] == t[21]);
    assert(t[21] == '\n');
    assert(padding_end(s, j + 21) == j + 21);
}

proof fn lemma_rows_len(b: [[Piece; 9]; 9], n: int)
    requires
        0 <= n <= 9,
    ensures
        board_rows(b, n).len() == 22 * n,
    decreases n,
{
    reveal_strlit("|");
    reveal_strlit("\n");
    if n > 0 {
        lemma_rows_len(b, n - 1);
        lemma_cells_len(b, n - 1, 9);
    }
}

proof fn lemma_rows_hold_rank(b: [[Piece; 9]; 9], n: int, k: int)
    requires
        0 <= k < n <= 9,
    ensures
        board_rows(b, n).subrange(22 * k, 22 * k + 22) == drawn_rank(b, k),
    decreases n,
{
    reveal_strlit("|");
    reveal_strlit("\n");
    lemma_rows_len(b, n - 1);
    lemma_cells_len(b, n - 1, 9);
    let prev = board_rows(b, n - 1);
    let whole = board_rows(b, n);
    assert(whole =~= prev + drawn_rank(b, n - 1));
    if k == n - 1 {
        assert(whole.subrange(22 * k, 22 * k + 22) =~= drawn_rank(b, k));
    } else {
        lemma_rows_hold_rank(b, n - 1, k);
        assert(whole.subrange(22 * k, 22 * k + 22) =~= prev.subrange(22 * k, 22 * k + 22));
    }
}

proof fn lemma_ranks_read_back(b: [[Piece; 9]; 9], s: Seq<char>, j: int, k: int)
    requires
        pieces_are_whole(b),
        0 <= k <= 9,
        0 <= j,
        j + 198 <= s.len(),
        s.subrange(j, j + 198) == board_rows(b, 9),
    ensures
        ranks_from(s, j + 22 * k, Seq::new(k as nat, |x: int| read_rank(b, x, 9)))
            == Ok::<(Seq<Seq<Piece>>, int), (int, BoardFault)>((Seq::new(9, |x: int| read_rank(b, x, 9)), j + 198)),
    decreases 9 - k,
{
    let rows = Seq::new(k as nat, |x: int| read_rank(b, x, 9));
    if k == 9 {
        assert(rows =~= Seq::new(9, |x: int| read_rank(b, x, 9)));
    } else {
        lemma_rows_hold_rank(b, 9, k);
        assert(s.subrange(j + 22 * k, j + 22 * k + 22) =~= s.subrange(j, j + 198).subrange(22 * k, 22 * k + 22));
        lemma_rank_reads_back(b, k, s, j + 22 * k);
        assert(rows.push(read_rank(b, k, 9)) =~= Seq::new((k + 1) as nat, |x: int| read_rank(b, x, 9)));
        lemma_ranks_read_back(b, s, j, k + 1);
    }
}

proof fn lemma_drawn_board_at(b: [[Piece; 9]; 9], s: Seq<char>, i: int)
    requires
        pieces_are_whole(b),
        0 <= i,
        i + drawn_board(b).len() <= s.len(),
        s.subrange(i, i + drawn_board(b).len()) == drawn_board(b),
    ensures
        drawn_board(b).len() == 278,
        spec_board(s, i) matches Ok((rows, e))
            && e == i + drawn_board(b).len()
            && board_of_ranks(b, rows),
{
    lemma_files_and_frame();
    reveal_strlit("  ９ ８ ７ ６ ５ ４ ３ ２ １\n+---------------------------+\n");
    reveal_strlit("+---------------------------+\n");
    lemma_rows_len(b, 9);
    let head = "  ９ ８ ７ ６ ５ ４ ３ ２ １\n+---------------------------+\n"@;
    let foot = "+---------------------------+\n"@;
    let d = drawn_board(b);
    assert(head.len() == 50);
    assert(foot.len() == 30);
    assert(d.subrange(0, 50) =~= head);
    assert(d.subrange(50, 248) =~= board_rows(b, 9));
    assert(d.subrange(248, 278) =~= foot);
    assert forall|j: int| 0 <= j < 278 implies #[trigger] s[i + j] == d[j] by {
        assert(s.subrange(i, i + 278)[j] == s[i + j]);
    }
    // The file numbers, after two columns of padding.
    assert(s[i] == ' ' && s[i + 1] == ' ') by {
        assert(s[i] == d[0] && s[i + 1] == d[1]);
    }
    assert(padding_end(s, i + 2) == i + 2) by {
        assert(s[i + 2] == d[2]);
    }
    assert(padding_end(s, i + 1) == i + 2);
    assert(padding_end(s, i) == i + 2);
    assert(s.subrange(i + 2, i + 19) =~= files_line()) by {
        assert forall|j: int| 0 <= j < 17 implies s.subrange(i + 2, i + 19)[j] == files_line()[j] by {
            assert(s[i + 2 + j] == d[2 + j]);
        }
    }
    assert(s[i + 19] == '\n') by { assert(s[i + 19] == d[19]); }
    assert(padding_end(s, i + 19) == i + 19);
    assert(framed_line(s, i, files_line(), false) == Some(i + 20));
    assert(s[i + 20] == '+') by { assert(s[i + 20] == d[20]); }
    assert(padding_end(s, i + 20) == i + 20);
    assert(s.subrange(i + 20, i + 49) =~= frame_line()) by {
        assert forall|j: int| 0 <= j < 29 implies s.subrange(i + 20, i + 49)[j] == frame_line()[j] by {
            assert(s[i + 20 + j] == d[20 + j]);
        }
    }
    assert(s[i + 49] == '\n') by { assert(s[i + 49] == d[49]); }
    assert(padding_end(s, i + 49) == i + 49);
    assert(framed_line(s, i + 20, frame_line(), false) == Some(i + 50));
    assert(s.subrange(i + 50, i + 248) =~= board_rows(b, 9)) by {
        assert forall|j: int| 0 <= j < 198 implies s.subrange(i + 50, i + 248)[j] == board_rows(b, 9)[j] by {
            assert(s[i + 50 + j] == d[50 + j]);
        }
    }
    lemma_ranks_read_back(b, s, i + 50, 0);
    assert(Seq::new(0, |x: int| read_rank(b, x, 9)) =~= Seq::<Seq<Piece>>::empty());
    assert(s[i + 248] == '+') by { assert(s[i + 248] == d[248]); }
    assert(padding_end(s, i + 248) == i + 248);
    assert(s.subrange(i + 248, i + 277) =~= frame_line()) by {
        assert forall|j: int| 0 <= j < 29 implies s.subrange(i + 248, i + 277)[j] == frame_line()[j] by {
            assert(s[i + 248 + j] == d[248 + j]);
        }
    }
    assert(s[i + 277] == '\n') by { assert(s[i + 277] == d[277]); }
    assert(padding_end(s, i + 277) == i + 277);
    assert(framed_line(s, i + 248, frame_line(), true) == Some(i + 278));
    let rows = Seq::new(9, |x: int| read_rank(b, x, 9));
    assert(board_of_ranks(b, rows));
}

/// A board diagram the KIF writer draws reads back as the board it was drawn
/// from, whatever follows it: the reader stops where the diagram ends.
pub proof fn a_drawn_board_reads_back(b: [[Piece; 9]; 9], rest: Seq<char>)
    requires
        pieces_are_whole(b),
    ensures
        spec_board(drawn_board(b) + rest, 0) matches Ok((rows, e))
            && e == drawn_board(b).len()
            && board_of_ranks(b, rows),
{
    let s = drawn_board(b) + rest;
    assert(s.subrange(0, drawn_board(b).len() as int) =~= drawn_board(b));
    lemma_drawn_board_at(b, s, 0);
}

/// Whether every count of `h` is one the writer can spell (at most 18).
pub open spec fn hand_is_spellable(h: Hand) -> bool {
    h.FU <= 18 && h.KY <= 18 && h.KE <= 18 && h.GI <= 18 && h.KI <= 18 && h.KA <= 18 && h.HI <= 18
}

/// The kind the writer puts `k`-th in a hand, rook first.
spec fn kind_in_order(k: int) -> Kind {
    if k == 0 { Kind::HI } else if k == 1 { Kind::KA } else if k == 2 { Kind::KI }
    else if k == 3 { Kind::GI } else if k == 4 { Kind::KE } else if k == 5 { Kind::KY } else { Kind::FU }
}

/// What the writer writes for the `k`-th kind of `h`.
spec fn written_part(h: Hand, k: int) -> Seq<char> {
    hand_part(hand_counts(h)[k].0, hand_counts(h)[k].1).0
}

/// What the writer writes for the kinds of `h` from the `k`-th on.
spec fn parts_from(h: Hand, k: int) -> Seq<char>
    decreases 7 - k,
{
    if k < 0 || k >= 7 {
        Seq::empty()
    } else {
        written_part(h, k) + parts_from(h, k + 1)
    }
}

/// The entries a reader finds in what the writer writes for the kinds of
/// `h` from the `k`-th on: each kind the hand holds, with its count.
spec fn entries_from(h: Hand, k: int) -> Seq<(Kind, int)>
    decreases 7 - k,
{
    if k < 0 || k >= 7 {
        Seq::empty()
    } else if hand_counts(h)[k].1 == 0 {
        entries_from(h, k + 1)
    } else {
        seq![(kind_in_order(k), hand_counts(h)[k].1 as int)] + entries_from(h, k + 1)
    }
}

/// `h` with the kinds from the `k`-th on taken out.
spec fn hand_before(h: Hand, k: int) -> Hand {
    Hand {
        HI: if k > 0 { h.HI } else { 0 },
        KA: if k > 1 { h.KA } else { 0 },
        KI: if k > 2 { h.KI } else { 0 },
        GI: if k > 3 { h.GI } else { 0 },
        KE: if k > 4 { h.KE } else { 0 },
        KY: if k > 5 { h.KY } else { 0 },
        FU: if k > 6 { h.FU } else { 0 },
    }
}

proof fn lemma_numeral_reads_back(n: int)
    requires
        1 <= n <= 9,
    ensures
        rank_numeral(kansuji(n)) == Some(n as u8),
{
}

proof fn lemma_part_shape(h: Hand, k: int)
    requires
        hand_is_spellable(h),
        0 <= k < 7,
    ensures
        hand_part(hand_counts(h)[k].0, hand_counts(h)[k].1).1 is None,
        hand_counts(h)[k].1 == 0 ==> written_part(h, k).len() == 0,
        hand_counts(h)[k].1 > 0 ==> written_part(h, k).len() >= 2 && written_part(h, k)[0] == hand_counts(h)[k].0,
        hand_counts(h)[k].1 <= 18,
        piece_word_of(hand_counts(h)[k].0) == kind_in_order(k),
        h.spec_slot(kind_in_order(k)) == Some(hand_counts(h)[k].1),
{
}

/// The kind a hand's kanji names.
spec fn piece_word_of(c: char) -> Kind {
    crate::parser::kakinoki::piece_word(seq![c], 0).unwrap().0
}

proof fn lemma_part_reads_back(h: Hand, k: int, s: Seq<char>, i: int)
    requires
        hand_is_spellable(h),
        0 <= k < 7,
        hand_counts(h)[k].1 > 0,
        0 <= i,
        i + written_part(h, k).len() <= s.len(),
        s.subrange(i, i + written_part(h, k).len()) == written_part(h, k),
        i + written_part(h, k).len() == s.len() || !spec_is_padding(s[i + written_part(h, k).len()]),
    ensures
        hand_entry(s, i) == Some((kind_in_order(k), hand_counts(h)[k].1 as int, i + written_part(h, k).len())),
{
    reveal_strlit("　");
    lemma_part_shape(h, k);
    let w = written_part(h, k);
    let c = hand_counts(h)[k].0;
    let n = hand_counts(h)[k].1;
    let e = i + w.len();
    assert(s[i] == w[0]);
    assert(crate::parser::kakinoki::piece_word(s, i) == Some((kind_in_order(k), i + 1)));
    if n == 1 {
        assert(w =~= seq![c, '　']);
        assert(s[i + 1] == w[1]);
        assert(kansuji_at(s, i + 1) is None);
        assert(padding_end(s, i + 2) == e);
    } else if n <= 9 {
        assert(w =~= seq![c, kansuji(n as int), '　']);
        assert(s[i + 1] == w[1]);
        assert(s[i + 2] == w[2]);
        lemma_numeral_reads_back(n as int);
        assert(kansuji_at(s, i + 1) == Some((n as int, i + 2)));
        assert(padding_end(s, i + 3) == e);
    } else if n == 10 {
        assert(w =~= seq![c, '十', '　']);
        assert(s[i + 1] == w[1]);
        assert(s[i + 2] == w[2]);
        assert(kansuji_at(s, i + 1) == Some((10int, i + 2)));
        assert(padding_end(s, i + 3) == e);
    } else {
        assert(w =~= seq![c, '十', kansuji(n - 10), '　']);
        assert(s[i + 1] == w[1]);
        assert(s[i + 2] == w[2]);
        assert(s[i + 3] == w[3]);
        lemma_numeral_reads_back(n - 10);
        assert(kansuji_at(s, i + 1) == Some((n as int, i + 3)));
        assert(padding_end(s, i + 4) == e);
    }
}

proof fn lemma_parts_start(h: Hand, k: int)
    requires
        hand_is_spellable(h),
        0 <= k <= 7,
    ensures
        parts_from(h, k).len() > 0 ==> !spec_is_padding(parts_from(h, k)[0]) && crate::parser::kakinoki::piece_word(parts_from(h, k), 0) is Some,
        parts_from(h, k).len() == 0 <==> entries_from(h, k).len() == 0,
    decreases 7 - k,
{
    if k < 7 {
        lemma_part_shape(h, k);
        lemma_parts_start(h, k + 1);
        if hand_counts(h)[k].1 > 0 {
            let w = written_part(h, k);
            assert(parts_from(h, k)[0] == w[0]);
        } else {
            assert(parts_from(h, k) =~= parts_from(h, k + 1));
        }
    }
}

proof fn lemma_parts_read_back(h: Hand, k: int, s: Seq<char>, i: int)
    requires
        hand_is_spellable(h),
        0 <= k <= 7,
        0 <= i,
        i + parts_from(h, k).len() <= s.len(),
        s.subrange(i, i + parts_from(h, k).len()) == parts_from(h, k),
        eol_at(s, i + parts_from(h, k).len()) is Some,
    ensures
        hand_entries(s, i) == (entries_from(h, k), i + parts_from(h, k).len()),
    decreases 7 - k,
{
    let l = parts_from(h, k).len();
    if k == 7 {
        assert(crate::parser::kakinoki::piece_word(s, i) is None);
    } else {
        lemma_part_shape(h, k);
        let w = written_part(h, k);
        let rest = parts_from(h, k + 1);
        assert(parts_from(h, k) == w + rest);
        if hand_counts(h)[k].1 == 0 {
            assert(w.len() == 0);
            assert(parts_from(h, k) =~= rest);
            lemma_parts_read_back(h, k + 1, s, i);
        } else {
            let m = i + w.len();
            assert(s.subrange(i, m) =~= s.subrange(i, i + l).subrange(0, w.len() as int));
            assert(s.subrange(i, i + l).subrange(0, w.len() as int) =~= w);
            assert(s.subrange(m, i + l) =~= s.subrange(i, i + l).subrange(w.len() as int, l as int));
            assert(s.subrange(i, i + l).subrange(w.len() as int, l as int) =~= rest);
            lemma_parts_start(h, k + 1);
            if rest.len() > 0 {
                assert(s[m] == rest[0]);
            }
            lemma_part_reads_back(h, k, s, i);
            lemma_parts_read_back(h, k + 1, s, m);
        }
    }
}

proof fn lemma_entries_fill_the_hand(h: Hand, k: int)
    requires
        hand_is_spellable(h),
        0 <= k <= 7,
    ensures
        add_entries(hand_before(h, k), entries_from(h, k)) == Some(h),
    decreases 7 - k,
{
    if k == 7 {
        assert(hand_before(h, 7) == h);
    } else {
        lemma_part_shape(h, k);
        lemma_entries_fill_the_hand(h, k + 1);
        let n = hand_counts(h)[k].1;
        if n == 0 {
            assert(hand_before(h, k) == hand_before(h, k + 1));
        } else {
            let es = entries_from(h, k);
            assert(es[0] == (kind_in_order(k), n as int));
            assert(es.drop_first() =~= entries_from(h, k + 1));
            assert(hand_before(h, k).spec_slot(kind_in_order(k)) == Some(0u8));
            assert(hand_before(h, k).spec_with(kind_in_order(k), n) == hand_before(h, k + 1));
        }
    }
}

proof fn lemma_hand_text_is_the_parts(h: Hand, k: int)
    requires
        hand_is_spellable(h),
        0 <= k <= 7,
    ensures
        then_all(hand_counts(h).map_values(|p: (char, u8)| hand_part(p.0, p.1)).take(k)).1 is None,
        then_all(hand_counts(h).map_values(|p: (char, u8)| hand_part(p.0, p.1)).take(k)).0 + parts_from(h, k) == parts_from(h, 0),
    decreases k,
{
    let ws = hand_counts(h).map_values(|p: (char, u8)| hand_part(p.0, p.1));
    if k == 0 {
        assert(ws.take(0) =~= Seq::<(Seq<char>, Option<crate::error::ConvertError>)>::empty());
        assert(Seq::<char>::empty() + parts_from(h, 0) =~= parts_from(h, 0));
    } else {
        lemma_hand_text_is_the_parts(h, k - 1);
        lemma_then_all_step(ws, k - 1);
        lemma_part_shape(h, k - 1);
        let a = then_all(ws.take(k - 1)).0;
        assert(ws[k - 1] == hand_part(hand_counts(h)[k - 1].0, hand_counts(h)[k - 1].1));
        assert(parts_from(h, k - 1) == written_part(h, k - 1) + parts_from(h, k));
        assert(a + written_part(h, k - 1) + parts_from(h, k) =~= a + parts_from(h, k - 1));
    }
}

proof fn lemma_hand_value_at(h: Hand, s: Seq<char>, i: int)
    requires
        hand_is_spellable(h),
        0 <= i,
        i + hand_value(h).0.len() <= s.len(),
        s.subrange(i, i + hand_value(h).0.len()) == hand_value(h).0,
        eol_at(s, i + hand_value(h).0.len()) is Some,
    ensures
        hand_value(h).1 is None,
        spec_hand_value(s, i) == Some((h, i + hand_value(h).0.len())),
{
    let w = hand_value(h).0;
    if h == Hand::spec_empty() {
        reveal_strlit("なし");
        assert(s[i] == w[0] && s[i + 1] == w[1]);
        assert(padding_end(s, i) == i);
        assert(padding_end(s, i + 2) == i + 2);
    } else {
        let ws = hand_counts(h).map_values(|p: (char, u8)| hand_part(p.0, p.1));
        lemma_hand_text_is_the_parts(h, 7);
        lemma_then_all_whole(ws);
        assert(ws.len() == 7);
        assert(hand_text(h).0 =~= parts_from(h, 0));
        let l = parts_from(h, 0).len();
        lemma_parts_read_back(h, 0, s, i);
        lemma_entries_fill_the_hand(h, 0);
        assert(hand_before(h, 0) == Hand::spec_empty());
        lemma_parts_start(h, 0);
        if l == 0 {
            assert(add_entries(Hand::spec_empty(), Seq::empty()) == Some(Hand::spec_empty()));
        }
        assert(s[i] == w[0]);
        assert(padding_end(s, i) == i);
        assert(!(s[i] == 'な'));
    }
}

/// A hand the KIF writer spells reads back as that hand: the `持駒` value it
/// writes (`なし`, or each kind with its count) gives the reader back every
/// count, and the reader stops where the value ends.
pub proof fn a_written_hand_reads_back(h: Hand, rest: Seq<char>)
    requires
        hand_is_spellable(h),
        eol_at(rest, 0) is Some,
    ensures
        hand_value(h).1 is None,
        spec_hand_value(hand_value(h).0 + rest, 0) == Some((h, hand_value(h).0.len() as int)),
{
    let w = hand_value(h).0;
    let s = w + rest;
    assert(s.subrange(0, w.len() as int) =~= w);
    if rest.len() > 0 {
        assert(s[w.len() as int] == rest[0]);
        if rest.len() > 1 {
            assert(s[w.len() as int + 1] == rest[1]);
        }
    }
    assert(eol_at(s, w.len() as int) is Some);
    lemma_hand_value_at(h, s, 0);
}

pub(crate) proof fn lemma_padding_stops(s: Seq<char>, i: int, e: int)
    requires
        0 <= i <= e <= s.len(),
        e == s.len() || !spec_is_padding(s[e]),
    ensures
        i <= padding_end(s, i) <= e,
    decreases e - i,
{
    if i < e && spec_is_padding(s[i]) {
        lemma_padding_stops(s, i + 1, e);
    }
}

proof fn lemma_key_stops_at_the_line_end(s: Seq<char>, j: int, e: int, full_only: bool)
    requires
        0 <= j <= e <= s.len(),
        e == s.len() || is_line_end_char(s[e]),
        forall|x: int| j <= x < e ==> !is_line_end_char(#[trigger] s[x]) && s[x] != '：' && s[x] != ':',
    ensures
        key_stop(s, j, full_only) == e,
    decreases e - j,
{
    if j < e {
        lemma_key_stops_at_the_line_end(s, j + 1, e, full_only);
    }
}

/// A line up to `e` that holds no colon, and opens with nothing a header line
/// opens with, is no line of the header block.
proof fn lemma_no_header_line(shapes: LineShapes, s: Seq<char>, i: int, e: int)
    requires
        0 <= i <= e <= s.len(),
        e == s.len() || s[e] == '\n',
        forall|x: int| i <= x < e ==> !is_line_end_char(#[trigger] s[x]) && s[x] != '：' && s[x] != ':',
        padding_end(s, i) < e ==> s[padding_end(s, i)] != '#' && s[padding_end(s, i)] != '*'
            && s[padding_end(s, i)] != '&' && s[padding_end(s, i)] != '手',
        hands_prefix(s, i) is None,
    ensures
        info_line(shapes, s, i) == Err::<(InfoItem, int), Option<(int, LineFault)>>(None),
{
    reveal_strlit("手合割");
    let p = padding_end(s, i);
    lemma_padding_stops(s, i, e);
    assert(spec_comment_line(s, i) is None);
    assert(comment_lines_end(s, i) == i);
    assert(comment_text_line(s, i) is None);
    if lit_at(s, p, "手合割"@) {
        assert(s.subrange(p, p + 3)[0] == s[p]);
    }
    assert(spec_information_line_preset(s, i) is None);
    assert(spec_information_line_hands(s, i) is Err);
    lemma_key_stops_at_the_line_end(s, p, e, true);
    lemma_key_stops_at_the_line_end(s, p, e, false);
    assert(spec_keyvalue(shapes, s, i) == Err::<(Seq<char>, Seq<char>, int), Option<(int, LineFault)>>(None));
}

proof fn lemma_no_table_name_here(s: Seq<char>, p: int, k: int)
    requires
        0 <= p,
        p + 3 <= s.len(),
        s.subrange(p, p + 3) == "その他"@,
        0 <= k <= 16,
    ensures
        preset_named_from(s, p, k) == Some((Preset::PresetOther, p + 3)),
    decreases 16 - k,
{
    reveal_strlit("その他");
    reveal_strlit("平手");
    reveal_strlit("香落ち");
    reveal_strlit("右香落ち");
    reveal_strlit("角落ち");
    reveal_strlit("飛車落ち");
    reveal_strlit("飛香落ち");
    reveal_strlit("二枚落ち");
    reveal_strlit("三枚落ち");
    reveal_strlit("四枚落ち");
    reveal_strlit("五枚落ち");
    reveal_strlit("左五枚落ち");
    reveal_strlit("六枚落ち");
    reveal_strlit("右七枚落ち");
    reveal_strlit("左七枚落ち");
    reveal_strlit("八枚落ち");
    reveal_strlit("十枚落ち");
    assert(s[p] == 'そ') by { assert(s.subrange(p, p + 3)[0] == s[p]); }
    if k < 16 {
        let name = spec_kif_name(table_preset(k)).unwrap();
        assert(name.len() >= 2 && name[0] != 'そ');
        if lit_at(s, p, name) {
            assert(s.subrange(p, p + name.len())[0] == s[p]);
        }
        lemma_no_table_name_here(s, p, k + 1);
    }
}

/// The `手合割：その他` line.
proof fn lemma_other_preset_line(shapes: LineShapes, s: Seq<char>, i: int)
    requires
        0 <= i,
        i + 8 <= s.len(),
        s.subrange(i, i + 8) == "手合割：その他\n"@,
    ensures
        info_line(shapes, s, i) == Ok::<(InfoItem, int), Option<(int, LineFault)>>((InfoItem::Preset(Preset::PresetOther), i + 8)),
{
    reveal_strlit("手合割：その他\n");
    reveal_strlit("手合割");
    reveal_strlit("その他");
    let t = "手合割：その他\n"@;
    let w = s.subrange(i, i + 8);
    assert(s[i] == w[0] && s[i + 1] == w[1] && s[i + 2] == w[2] && s[i + 3] == w[3]);
    assert(s[i + 4] == w[4] && s[i + 5] == w[5] && s[i + 6] == w[6] && s[i + 7] == w[7]);
    assert(s[i] == '手');
    assert(padding_end(s, i) == i);
    assert(spec_comment_line(s, i) is None);
    assert(comment_lines_end(s, i) == i);
    assert(comment_text_line(s, i) is None);
    assert(s.subrange(i, i + 3) =~= "手合割"@);
    assert(s[i + 3] == '：');
    assert(padding_end(s, i + 3) == i + 3);
    assert(s[i + 4] == 'そ');
    assert(padding_end(s, i + 4) == i + 4);
    assert(s.subrange(i + 4, i + 7) =~= "その他"@);
    lemma_no_table_name_here(s, i + 4, 0);
    assert(s[i + 7] == '\n');
    assert(padding_end(s, i + 7) == i + 7);
    assert(spec_information_line_preset(s, i) == Some((Preset::PresetOther, i + 8)));
}

/// A `先手の持駒：` (`black`) or `後手の持駒：` line holding the hand the writer
/// spells for `h`.
proof fn lemma_written_hand_line(shapes: LineShapes, s: Seq<char>, i: int, black: bool, h: Hand)
    requires
        hand_is_spellable(h),
        0 <= i,
        i + 7 + hand_value(h).0.len() <= s.len(),
        s.subrange(i, i + 6) == (if black { "先手の持駒："@ } else { "後手の持駒："@ }),
        s.subrange(i + 6, i + 6 + hand_value(h).0.len()) == hand_value(h).0,
        s[i + 6 + hand_value(h).0.len()] == '\n',
    ensures
        info_line(shapes, s, i) == Ok::<(InfoItem, int), Option<(int, LineFault)>>((
            if black { InfoItem::HandBlack(h) } else { InfoItem::HandWhite(h) },
            i + 7 + hand_value(h).0.len(),
        )),
{
    reveal_strlit("先手の持駒：");
    reveal_strlit("後手の持駒：");
    reveal_strlit("手合割");
    reveal_strlit("の持駒");
    let t = if black { "先手の持駒："@ } else { "後手の持駒："@ };
    let w = s.subrange(i, i + 6);
    assert(s[i] == w[0] && s[i + 1] == w[1] && s[i + 2] == w[2]);
    assert(s[i + 3] == w[3] && s[i + 4] == w[4] && s[i + 5] == w[5]);
    assert(padding_end(s, i) == i);
    assert(spec_comment_line(s, i) is None);
    assert(comment_lines_end(s, i) == i);
    assert(comment_text_line(s, i) is None);
    if lit_at(s, i, "手合割"@) {
        assert(s.subrange(i, i + 3)[0] == s[i]);
    }
    assert(spec_information_line_preset(s, i) is None);
    assert(s.subrange(i + 2, i + 5) =~= "の持駒"@);
    assert(padding_end(s, i + 5) == i + 5);
    assert(hands_prefix(s, i) == Some((if black { Color::Black } else { Color::White }, i + 6)));
    let l = hand_value(h).0.len();
    lemma_hand_value_at(h, s, i + 6);
    assert(eol_at(s, i + 6 + l) == Some(i + 7 + l));
}

/// What the writer puts after Black's hand: the line's ending, and `後手番`
/// when White is to move.
spec fn side_text(c: Color) -> Seq<char> {
    "\n"@ + if c == Color::White { "後手番\n"@ } else { Seq::empty() }
}

proof fn lemma_head_literal()
    ensures
        "手合割：その他\n後手の持駒："@ == "手合割：その他\n"@ + "後手の持駒："@,
{
    reveal_strlit("手合割：その他\n後手の持駒：");
    reveal_strlit("手合割：その他\n");
    reveal_strlit("後手の持駒：");
    assert("手合割：その他\n後手の持駒："@ =~= "手合割：その他\n"@ + "後手の持駒："@);
}

proof fn lemma_board_literal(b: [[Piece; 9]; 9])
    ensures
        "\n  ９ ８ ７ ６ ５ ４ ３ ２ １\n+---------------------------+\n"@ + board_rows(b, 9)
            + "+---------------------------+\n先手の持駒："@ == "\n"@ + drawn_board(b) + "先手の持駒："@,
{
    reveal_strlit("\n");
    reveal_strlit("\n  ９ ８ ７ ６ ５ ４ ３ ２ １\n+---------------------------+\n");
    reveal_strlit("  ９ ８ ７ ６ ５ ４ ３ ２ １\n+---------------------------+\n");
    reveal_strlit("+---------------------------+\n先手の持駒：");
    reveal_strlit("+---------------------------+\n");
    reveal_strlit("先手の持駒：");
    assert("\n  ９ ８ ７ ６ ５ ４ ３ ２ １\n+---------------------------+\n"@ + board_rows(b, 9)
        + "+---------------------------+\n先手の持駒："@ =~= "\n"@ + drawn_board(b) + "先手の持駒："@);
}

/// Five pieces of a write, none of which stops on an error, write one after
/// another.
proof fn lemma_five_pieces(ws: Seq<(Seq<char>, Option<crate::error::ConvertError>)>)
    requires
        ws.len() == 5,
        forall|k: int| 0 <= k < 5 ==> (#[trigger] ws[k]).1 is None,
    ensures
        then_all(ws) == (ws[0].0 + ws[1].0 + ws[2].0 + ws[3].0 + ws[4].0, None::<crate::error::ConvertError>),
{
    assert(ws.take(0) =~= Seq::<(Seq<char>, Option<crate::error::ConvertError>)>::empty());
    lemma_then_all_step(ws, 0);
    lemma_then_all_step(ws, 1);
    lemma_then_all_step(ws, 2);
    lemma_then_all_step(ws, 3);
    lemma_then_all_step(ws, 4);
    lemma_then_all_whole(ws);
    assert(Seq::<char>::empty() + ws[0].0 =~= ws[0].0);
}

#[verifier::spinoff_prover]
proof fn lemma_initial_text(d: StateFormat)
    requires
        hand_is_spellable(d.hands@[0]),
        hand_is_spellable(d.hands@[1]),
    ensures
        initial_data_text(d).1 is None,
        initial_data_text(d).0 == "手合割：その他\n"@ + "後手の持駒："@ + hand_value(d.hands@[1]).0 + "\n"@
            + drawn_board(d.board) + "先手の持駒："@ + hand_value(d.hands@[0]).0 + side_text(d.color),
{
    reveal_strlit("\n");
    a_written_hand_reads_back(d.hands@[0], "\n"@);
    a_written_hand_reads_back(d.hands@[1], "\n"@);
    let ps = initial_data_parts(d);
    lemma_five_pieces(ps);
    let b = d.board;
    lemma_head_literal();
    lemma_board_literal(b);
    let head = "手合割：その他\n後手の持駒："@;
    let mid = "\n  ９ ８ ７ ６ ５ ４ ３ ２ １\n+---------------------------+\n"@ + board_rows(b, 9)
        + "+---------------------------+\n先手の持駒："@;
    let w1 = hand_value(d.hands@[1]).0;
    let w0 = hand_value(d.hands@[0]).0;
    assert(initial_data_text(d).0 == head + w1 + mid + w0 + side_text(d.color));
    assert(initial_data_text(d).0 =~= "手合割：その他\n"@ + "後手の持駒："@ + w1 + "\n"@
        + drawn_board(b) + "先手の持駒："@ + w0 + side_text(d.color));
}

/// The first line of a board diagram is no line of the header block.
proof fn lemma_files_line_is_no_header_line(shapes: LineShapes, s: Seq<char>, i: int)
    requires
        0 <= i,
        i + 20 <= s.len(),
        s.subrange(i, i + 20) == "  ９ ８ ７ ６ ５ ４ ３ ２ １\n"@,
    ensures
        info_line(shapes, s, i) == Err::<(InfoItem, int), Option<(int, LineFault)>>(None),
{
    reveal_strlit("  ９ ８ ７ ６ ５ ４ ３ ２ １\n");
    let t = s.subrange(i, i + 20);
    assert forall|x: int| i <= x < i + 19 implies !is_line_end_char(#[trigger] s[x]) && s[x] != '：' && s[x] != ':' by {
        assert(t[x - i] == s[x]);
    }
    assert(s[i] == t[0] && s[i + 1] == t[1] && s[i + 2] == t[2] && s[i + 3] == t[3] && s[i + 19] == t[19]);
    assert(padding_end(s, i + 2) == i + 2);
    assert(padding_end(s, i + 1) == i + 2);
    assert(padding_end(s, i) == i + 2);
    assert(hands_prefix(s, i) is None);
    lemma_no_header_line(shapes, s, i, i + 19);
}

/// The header lines over the board: `手合割：その他` and White's hand.
proof fn lemma_lines_over_the_board(shapes: LineShapes, s: Seq<char>, h1: Hand)
    requires
        hand_is_spellable(h1),
        15 + (hand_value(h1).0.len() as int) + 20 <= s.len(),
        s.subrange(0, 8) == "手合割：その他\n"@,
        s.subrange(8, 14) == "後手の持駒："@,
        s.subrange(14, 14 + (hand_value(h1).0.len() as int)) == hand_value(h1).0,
        s[14 + (hand_value(h1).0.len() as int)] == '\n',
        s.subrange(15 + (hand_value(h1).0.len() as int), 35 + (hand_value(h1).0.len() as int)) == "  ９ ８ ７ ６ ５ ４ ３ ２ １\n"@,
    ensures
        info_lines(shapes, s, 0, empty_info()) == Ok::<(InfoView, int), (int, LineFault)>((
            apply_info(apply_info(empty_info(), InfoItem::Preset(Preset::PresetOther)), InfoItem::HandWhite(h1)),
            15 + (hand_value(h1).0.len() as int),
        )),
{
    let b0 = 15 + (hand_value(h1).0.len() as int);
    lemma_other_preset_line(shapes, s, 0);
    lemma_written_hand_line(shapes, s, 8, false, h1);
    lemma_files_line_is_no_header_line(shapes, s, b0);
    let acc1 = apply_info(empty_info(), InfoItem::Preset(Preset::PresetOther));
    let acc2 = apply_info(acc1, InfoItem::HandWhite(h1));
    assert(info_lines(shapes, s, b0, acc2) == Ok::<(InfoView, int), (int, LineFault)>((acc2, b0)));
    assert(info_lines(shapes, s, 8, acc1) == Ok::<(InfoView, int), (int, LineFault)>((acc2, b0)));
}

/// The lines under the board: Black's hand, and `後手番` when White is to
/// move, up to the end of the text.
proof fn lemma_lines_under_the_board(shapes: LineShapes, s: Seq<char>, i: int, h0: Hand, c: Color)
    requires
        hand_is_spellable(h0),
        0 <= i,
        s.len() == i + 6 + hand_value(h0).0.len() + side_text(c).len(),
        s.subrange(i, i + 6) == "先手の持駒："@,
        s.subrange(i + 6, i + 6 + hand_value(h0).0.len()) == hand_value(h0).0,
        s.subrange(i + 6 + hand_value(h0).0.len(), s.len() as int) == side_text(c),
    ensures
        info_lines(shapes, s, i, empty_info()) == Ok::<(InfoView, int), (int, LineFault)>((
            apply_info(empty_info(), InfoItem::HandBlack(h0)),
            i + 7 + hand_value(h0).0.len(),
        )),
        side_to_move_line(shapes, s, i + 7 + hand_value(h0).0.len())
            == Ok::<(Option<Color>, int), (int, LineFault)>((if c == Color::White { Some(Color::White) } else { None }, s.len() as int)),
{
    reveal_strlit("\n");
    reveal_strlit("後手番\n");
    let l0 = hand_value(h0).0.len() as int;
    let m = i + 6 + l0;
    let n3 = m + 1;
    let t = s.subrange(m, s.len() as int);
    assert(s[m] == t[0]);
    lemma_written_hand_line(shapes, s, i, true, h0);
    let acc3 = apply_info(empty_info(), InfoItem::HandBlack(h0));
    if c == Color::White {
        assert(s[n3] == t[1] && s[n3 + 1] == t[2] && s[n3 + 2] == t[3] && s[n3 + 3] == t[4]);
        assert(s[n3] == '後' && s[n3 + 1] == '手' && s[n3 + 2] == '番' && s[n3 + 3] == '\n');
        assert(padding_end(s, n3) == n3);
        assert(hands_prefix(s, n3) is None);
        lemma_no_header_line(shapes, s, n3, n3 + 3);
        assert(info_lines(shapes, s, n3, acc3) == Ok::<(InfoView, int), (int, LineFault)>((acc3, n3)));
        assert(side_word_at(s, n3) == Some(Color::White));
        assert(padding_end(s, n3 + 3) == n3 + 3);
    } else {
        assert(s.len() == n3);
        lemma_no_header_line(shapes, s, n3, n3);
        assert(info_lines(shapes, s, n3, acc3) == Ok::<(InfoView, int), (int, LineFault)>((acc3, n3)));
    }
}

/// Where each piece of a spelled-out starting position stands.
proof fn lemma_initial_text_layout(d: StateFormat)
    requires
        hand_is_spellable(d.hands@[0]),
        hand_is_spellable(d.hands@[1]),
    ensures
        initial_data_text(d).1 is None,
        ({
            let s = initial_data_text(d).0;
            let l1 = hand_value(d.hands@[1]).0.len() as int;
            let l0 = hand_value(d.hands@[0]).0.len() as int;
            &&& s.len() == 299 + l1 + l0 + side_text(d.color).len()
            &&& s.subrange(0, 8) == "手合割：その他\n"@
            &&& s.subrange(8, 14) == "後手の持駒："@
            &&& s.subrange(14, 14 + l1) == hand_value(d.hands@[1]).0
            &&& s[14 + l1] == '\n'
            &&& s.subrange(15 + l1, 293 + l1) == drawn_board(d.board)
            &&& s.subrange(15 + l1, 35 + l1) == "  ９ ８ ７ ６ ５ ４ ３ ２ １\n"@
            &&& s.subrange(293 + l1, 299 + l1) == "先手の持駒："@
            &&& s.subrange(299 + l1, 299 + l1 + l0) == hand_value(d.hands@[0]).0
            &&& s.subrange(299 + l1 + l0, s.len() as int) == side_text(d.color)
        }),
{
    reveal_strlit("\n");
    reveal_strlit("手合割：その他\n");
    reveal_strlit("後手の持駒：");
    reveal_strlit("先手の持駒：");
    reveal_strlit("  ９ ８ ７ ６ ５ ４ ３ ２ １\n+---------------------------+\n");
    reveal_strlit("  ９ ８ ７ ６ ５ ４ ３ ２ １\n");
    reveal_strlit("+---------------------------+\n");
    lemma_initial_text(d);
    lemma_rows_len(d.board, 9);
    let w0 = hand_value(d.hands@[0]).0;
    let w1 = hand_value(d.hands@[1]).0;
    let l0 = w0.len() as int;
    let l1 = w1.len() as int;
    let db = drawn_board(d.board);
    let s = initial_data_text(d).0;
    assert(db.len() == 278);
    assert(s.subrange(0, 8) =~= "手合割：その他\n"@);
    assert(s.subrange(8, 14) =~= "後手の持駒："@);
    assert(s.subrange(14, 14 + l1) =~= w1);
    assert(s.subrange(15 + l1, 293 + l1) =~= db);
    assert(s.subrange(15 + l1, 35 + l1) =~= db.subrange(0, 20));
    assert(db.subrange(0, 20) =~= "  ９ ８ ７ ６ ５ ４ ３ ２ １\n"@);
    assert(s.subrange(293 + l1, 299 + l1) =~= "先手の持駒："@);
    assert(s.subrange(299 + l1, 299 + l1 + l0) =~= w0);
    assert(s.subrange(299 + l1 + l0, s.len() as int) =~= side_text(d.color));
}

/// A starting position the KIF writer spells out (`手合割：その他`, both hands
/// and the board, and `後手番` when White is to move) reads back as that
/// position: the header block gives the board it was drawn from, the hands,
/// the side to move, and nothing more, and ends where the text ends.
#[verifier::rlimit(60)]
#[verifier::spinoff_prover]
pub proof fn a_spelled_out_position_reads_back(shapes: LineShapes, d: StateFormat)
    requires
        pieces_are_whole(d.board),
        hand_is_spellable(d.hands@[0]),
        hand_is_spellable(d.hands@[1]),
    ensures
        initial_data_text(d).1 is None,
        spec_parse_without_moves(shapes, initial_data_text(d).0) matches Ok((v, n))
            && n == initial_data_text(d).0.len()
            && v.info.preset == Some(Preset::PresetOther)
            && v.info.hands == seq![d.hands@[0], d.hands@[1]]
            && v.info.map.len() == 0
            && v.info.comments.len() == 0
            && v.side == (if d.color == Color::White { Some(Color::White) } else { None })
            && (v.board matches Some(rows) && board_of_ranks(d.board, rows)),
{
    lemma_initial_text_layout(d);
    let h0 = d.hands@[0];
    let h1 = d.hands@[1];
    let l0 = hand_value(h0).0.len() as int;
    let l1 = hand_value(h1).0.len() as int;
    let s = initial_data_text(d).0;
    let b0 = 15 + l1;
    let u = 293 + l1;
    lemma_lines_over_the_board(shapes, s, h1);
    lemma_drawn_board_at(d.board, s, b0);
    lemma_lines_under_the_board(shapes, s, u, h0, d.color);
    let acc2 = apply_info(apply_info(empty_info(), InfoItem::Preset(Preset::PresetOther)), InfoItem::HandWhite(h1));
    let acc3 = apply_info(empty_info(), InfoItem::HandBlack(h0));
    let side = if d.color == Color::White { Some(Color::White) } else { None };
    let rows = match spec_board(s, b0) {
        Ok((r, _)) => r,
        Err(_) => Seq::empty(),
    };
    assert(spec_board(s, b0) == Ok::<(Seq<Seq<Piece>>, int), Option<(int, BoardFault)>>((rows, u)));
    lemma_both_halves(h0, h1);
    let view = HeaderView { info: merged(acc2, acc3), board: Some(rows), side };
    assert(spec_parse_without_moves(shapes, s) == Ok::<(HeaderView, int), (int, LineFault)>((view, s.len() as int)));
}

/// The header lines over a spelled-out board and under it, as one.
proof fn lemma_both_halves(h0: Hand, h1: Hand)
    ensures
        ({
            let info = merged(
                apply_info(apply_info(empty_info(), InfoItem::Preset(Preset::PresetOther)), InfoItem::HandWhite(h1)),
                apply_info(empty_info(), InfoItem::HandBlack(h0)),
            );
            &&& info.preset == Some(Preset::PresetOther)
            &&& info.hands == seq![h0, h1]
            &&& info.map.len() == 0
            &&& info.comments.len() == 0
        }),
{
    let acc2 = apply_info(apply_info(empty_info(), InfoItem::Preset(Preset::PresetOther)), InfoItem::HandWhite(h1));
    let acc3 = apply_info(empty_info(), InfoItem::HandBlack(h0));
    assert(acc2.hands =~= seq![Hand::spec_empty(), h1]);
    assert(acc3.hands =~= seq![h0, Hand::spec_empty()]);
    assert(hand_sum(Hand::spec_empty(), h0) == h0);
    assert(hand_sum(h1, Hand::spec_empty()) == h1);
    assert(insert_all(acc2.map, acc3.map) =~= Seq::<(Seq<char>, Seq<char>)>::empty());
    assert(merged(acc2, acc3).hands =~= seq![h0, h1]);
}

/// Where a preset stands in the table of handicaps.
spec fn table_index(p: Preset) -> int {
    match p {
        Preset::PresetHirate => 0,
        Preset::PresetKY => 1,
        Preset::PresetKYR => 2,
        Preset::PresetKA => 3,
        Preset::PresetHI => 4,
        Preset::PresetHIKY => 5,
        Preset::Preset2 => 6,
        Preset::Preset3 => 7,
        Preset::Preset4 => 8,
        Preset::Preset5 => 9,
        Preset::Preset5L => 10,
        Preset::Preset6 => 11,
        Preset::Preset7R => 12,
        Preset::Preset7L => 13,
        Preset::Preset8 => 14,
        Preset::Preset10 => 15,
        Preset::PresetOther => 16,
    }
}

/// The first two characters of a handicap's name, which tell every name in
/// the table apart.
spec fn name_head(p: Preset) -> (char, char) {
    match p {
        Preset::PresetHirate => ('平', '手'),
        Preset::PresetKY => ('香', '落'),
        Preset::PresetKYR => ('右', '香'),
        Preset::PresetKA => ('角', '落'),
        Preset::PresetHI => ('飛', '車'),
        Preset::PresetHIKY => ('飛', '香'),
        Preset::Preset2 => ('二', '枚'),
        Preset::Preset3 => ('三', '枚'),
        Preset::Preset4 => ('四', '枚'),
        Preset::Preset5 => ('五', '枚'),
        Preset::Preset5L => ('左', '五'),
        Preset::Preset6 => ('六', '枚'),
        Preset::Preset7R => ('右', '七'),
        Preset::Preset7L => ('左', '七'),
        Preset::Preset8 => ('八', '枚'),
        Preset::Preset10 => ('十', '枚'),
        Preset::PresetOther => ('そ', 'の'),
    }
}

proof fn lemma_table_name(p: Preset)
    requires
        p != Preset::PresetOther,
    ensures
        0 <= table_index(p) < 16,
        table_preset(table_index(p)) == p,
        spec_kif_name(p) is Some,
        spec_kif_name(p).unwrap().len() >= 2,
        spec_kif_name(p).unwrap()[0] == name_head(p).0,
        spec_kif_name(p).unwrap()[1] == name_head(p).1,
        !spec_is_padding(spec_kif_name(p).unwrap()[0]),
        forall|j: int| 0 <= j < spec_kif_name(p).unwrap().len() ==> !is_line_end_char(#[trigger] spec_kif_name(p).unwrap()[j]),
{
    reveal_strlit("平手");
    reveal_strlit("香落ち");
    reveal_strlit("右香落ち");
    reveal_strlit("角落ち");
    reveal_strlit("飛車落ち");
    reveal_strlit("飛香落ち");
    reveal_strlit("二枚落ち");
    reveal_strlit("三枚落ち");
    reveal_strlit("四枚落ち");
    reveal_strlit("五枚落ち");
    reveal_strlit("左五枚落ち");
    reveal_strlit("六枚落ち");
    reveal_strlit("右七枚落ち");
    reveal_strlit("左七枚落ち");
    reveal_strlit("八枚落ち");
    reveal_strlit("十枚落ち");
}

proof fn lemma_the_name_is_found(s: Seq<char>, q: int, p: Preset, k: int)
    requires
        p != Preset::PresetOther,
        0 <= q,
        q + spec_kif_name(p).unwrap().len() <= s.len(),
        s.subrange(q, q + spec_kif_name(p).unwrap().len()) == spec_kif_name(p).unwrap(),
        0 <= k <= table_index(p),
    ensures
        preset_named_from(s, q, k) == Some((p, q + spec_kif_name(p).unwrap().len())),
    decreases table_index(p) - k,
{
    lemma_table_name(p);
    let name = spec_kif_name(p).unwrap();
    assert(s[q] == name[0] && s[q + 1] == name[1]) by {
        assert(s.subrange(q, q + name.len())[0] == s[q]);
        assert(s.subrange(q, q + name.len())[1] == s[q + 1]);
    }
    if k < table_index(p) {
        let other = table_preset(k);
        lemma_table_name(other);
        let n2 = spec_kif_name(other).unwrap();
        assert(name_head(other) != name_head(p));
        if lit_at(s, q, n2) {
            assert(s.subrange(q, q + n2.len())[0] == s[q]);
            assert(s.subrange(q, q + n2.len())[1] == s[q + 1]);
        }
        lemma_the_name_is_found(s, q, p, k + 1);
    }
}

/// A handicap the KIF writer names on its `手合割` line reads back as that
/// handicap: the header block gives the preset, no board, no side to move and
/// nothing more, and ends where the line ends.
#[verifier::rlimit(60)]
#[verifier::spinoff_prover]
pub proof fn a_named_handicap_reads_back(shapes: LineShapes, p: Preset)
    requires
        p != Preset::PresetOther,
    ensures
        preset_line(p).1 is None,
        spec_parse_without_moves(shapes, preset_line(p).0) matches Ok((v, n))
            && n == preset_line(p).0.len()
            && v.info.preset == Some(p)
            && v.info.hands == seq![Hand::spec_empty(), Hand::spec_empty()]
            && v.info.map.len() == 0
            && v.info.comments.len() == 0
            && v.board is None
            && v.side is None,
{
    reveal_strlit("手合割：");
    reveal_strlit("手合割");
    reveal_strlit("\n");
    lemma_table_name(p);
    let name = spec_kif_name(p).unwrap();
    let s = preset_line(p).0;
    let len = name.len() as int;
    assert(s == "手合割："@ + name + "\n"@);
    assert(s.len() == 5 + len);
    let w = s.subrange(0, 4);
    assert(w =~= "手合割："@);
    assert(s[0] == w[0] && s[1] == w[1] && s[2] == w[2] && s[3] == w[3]);
    assert(s[0] == '手' && s[3] == '：');
    assert(s[4] == name[0]);
    assert(s[4 + len] == '\n');
    assert(padding_end(s, 0) == 0);
    assert(spec_comment_line(s, 0) is None);
    assert(comment_lines_end(s, 0) == 0);
    assert(comment_text_line(s, 0) is None);
    assert(s.subrange(0, 3) =~= "手合割"@);
    assert(padding_end(s, 3) == 3);
    assert(padding_end(s, 4) == 4);
    assert(s.subrange(4, 4 + len) =~= name);
    lemma_the_name_is_found(s, 4, p, 0);
    assert(padding_end(s, 4 + len) == 4 + len);
    assert(spec_information_line_preset(s, 0) == Some((p, 5 + len)));
    assert(info_line(shapes, s, 0) == Ok::<(InfoItem, int), Option<(int, LineFault)>>((InfoItem::Preset(p), 5 + len)));
    lemma_no_header_line(shapes, s, 5 + len, 5 + len);
    let acc1 = apply_info(empty_info(), InfoItem::Preset(p));
    assert(info_lines(shapes, s, 5 + len, acc1) == Ok::<(InfoView, int), (int, LineFault)>((acc1, 5 + len)));
    assert(info_lines(shapes, s, 0, empty_info()) == Ok::<(InfoView, int), (int, LineFault)>((acc1, 5 + len)));
    assert(spec_board(s, 5 + len) is Err);
    lemma_no_header_line(shapes, s, 5 + len, 5 + len);
    assert(info_lines(shapes, s, 5 + len, empty_info()) == Ok::<(InfoView, int), (int, LineFault)>((empty_info(), 5 + len)));
    assert(side_to_move_line(shapes, s, 5 + len) == Ok::<(Option<Color>, int), (int, LineFault)>((None, 5 + len)));
    let info = merged(acc1, empty_info());
    assert(hand_sum(Hand::spec_empty(), Hand::spec_empty()) == Hand::spec_empty());
    assert(insert_all(acc1.map, Seq::empty()) =~= Seq::<(Seq<char>, Seq<char>)>::empty());
    assert(info.hands =~= seq![Hand::spec_empty(), Hand::spec_empty()]);
    let view = HeaderView { info, board: None, side: None };
    assert(spec_parse_without_moves(shapes, s) == Ok::<(HeaderView, int), (int, LineFault)>((view, 5 + len)));
}

/// Whether `k` opens the way a hand line opens: `先手の持駒` (or `後手`, `下手`,
/// `上手`), then padding and a colon, or nothing more.
pub open spec fn names_a_hand(k: Seq<char>) -> bool {
    &&& k.len() >= 5
    &&& k[1] == '手' && (k[0] == '先' || k[0] == '下' || k[0] == '後' || k[0] == '上')
    &&& k.subrange(2, 5) == "の持駒"@
    &&& (k.len() == 5 || (padding_end(k, 5) < k.len() && k[padding_end(k, 5)] == ':'))
}

/// Whether the reader takes `k`, written as `k：value`, for the key of a
/// header line: it is not empty, starts and ends with something other than
/// padding, holds no full-width colon and no line ending, does not open a
/// comment (`#`, `*`, `&`), and does not open the way a hand line does.
pub open spec fn is_a_plain_key(k: Seq<char>) -> bool {
    &&& k.len() > 0
    &&& !spec_is_padding(k[0]) && !spec_is_padding(k.last())
    &&& k[0] != '#' && k[0] != '*' && k[0] != '&'
    &&& forall|j: int| 0 <= j < k.len() ==> !is_line_end_char(#[trigger] k[j]) && k[j] != '：'
    &&& !names_a_hand(k)
}

/// Whether every entry of `h` reads back as written (see
/// [`entry_reads_as_written`]).
pub open spec fn header_reads_as_written(shapes: LineShapes, h: Seq<(String, String)>) -> bool {
    forall|j: int| 0 <= j < h.len() ==> entry_reads_as_written(shapes, #[trigger] h[j])
}

/// Whether the header line of `e` reads back as `e`: its key is one the
/// reader takes as a key, it is not a
/// `手合割` line naming a handicap the reader knows, and its value carries no
/// line of `shapes`.
pub open spec fn entry_reads_as_written(shapes: LineShapes, e: (String, String)) -> bool {
    &&& is_a_plain_key(e.0@)
    &&& !(e.0@ == "手合割"@ && spec_is_a_known_name(one_line(e.1@)))
    &&& !carries_a_line(shapes, one_line(e.1@))
}

/// The header line the writer writes for one entry.
pub open spec fn header_line(e: (String, String)) -> Seq<char> {
    e.0@ + "："@ + one_line(e.1@) + "\n"@
}

/// What the reader makes of the header lines of `h`, one after another.
pub open spec fn read_header(h: Seq<(String, String)>) -> InfoView
    decreases h.len(),
{
    if h.len() == 0 {
        empty_info()
    } else {
        apply_info(read_header(h.drop_last()), InfoItem::KeyValue(h.last().0@, one_line(h.last().1@)))
    }
}

/// The value a header map holds for `k`.
pub open spec fn value_for(m: Seq<(Seq<char>, Seq<char>)>, k: Seq<char>) -> Option<Seq<char>> {
    let i = key_index(m, k, m.len() as int);
    if i >= 0 { Some(m[i].1) } else { None }
}

proof fn lemma_one_line_has_no_line_end(v: Seq<char>)
    ensures
        forall|j: int| 0 <= j < one_line(v).len() ==> !is_line_end_char(#[trigger] one_line(v)[j]),
    decreases v.len(),
{
    if v.len() > 0 {
        let r = v.drop_first();
        lemma_one_line_has_no_line_end(r);
        if !(v[0] == '\n' || v[0] == '\r') {
            assert forall|j: int| 0 <= j < one_line(v).len() implies !is_line_end_char(#[trigger] one_line(v)[j]) by {
                if j > 0 {
                    assert(one_line(v)[j] == one_line(r)[j - 1]);
                }
            }
        }
    }
}

pub(crate) proof fn lemma_padding_run(s: Seq<char>, j: int)
    requires
        0 <= j <= s.len(),
    ensures
        j <= padding_end(s, j) <= s.len(),
        forall|x: int| j <= x < padding_end(s, j) ==> spec_is_padding(#[trigger] s[x]),
        padding_end(s, j) < s.len() ==> !spec_is_padding(s[padding_end(s, j)]),
    decreases s.len() - j,
{
    if j < s.len() && spec_is_padding(s[j]) {
        lemma_padding_run(s, j + 1);
    }
}

/// Padding inside a key `k` written at `i` ends where it ends in `k`.
proof fn lemma_padding_in_the_key(s: Seq<char>, k: Seq<char>, i: int, j: int)
    requires
        0 <= i,
        i + k.len() < s.len(),
        s.subrange(i, i + k.len()) == k,
        !spec_is_padding(s[i + k.len()]),
        0 <= j <= k.len(),
    ensures
        padding_end(s, i + j) == i + padding_end(k, j),
        padding_end(k, j) <= k.len(),
    decreases k.len() - j,
{
    if j < k.len() {
        assert(s[i + j] == s.subrange(i, i + k.len())[j]);
        if spec_is_padding(k[j]) {
            lemma_padding_in_the_key(s, k, i, j + 1);
        }
    }
}

/// Where padding that starts inside a plain key stops: on a character of the
/// key.
proof fn lemma_padding_stops_in_the_key(s: Seq<char>, k: Seq<char>, i: int, j: int)
    requires
        is_a_plain_key(k),
        0 <= i,
        i + k.len() < s.len(),
        s.subrange(i, i + k.len()) == k,
        s[i + k.len()] == '：',
        0 <= j < k.len(),
    ensures
        padding_end(k, j) < k.len(),
        padding_end(s, i + j) == i + padding_end(k, j),
        s[padding_end(s, i + j)] == k[padding_end(k, j)],
{
    lemma_padding_in_the_key(s, k, i, j);
    lemma_padding_run(k, j);
    if padding_end(k, j) == k.len() {
        assert(spec_is_padding(k[k.len() - 1]));
    }
    assert(s[i + padding_end(k, j)] == s.subrange(i, i + k.len())[padding_end(k, j)]);
}

/// What a preset's name is spelled with on a `手合割` line.
spec fn preset_word(p: Preset) -> Seq<char> {
    if p == Preset::PresetOther { "その他"@ } else { spec_kif_name(p).unwrap() }
}

proof fn lemma_preset_word(p: Preset)
    ensures
        preset_word(p).len() >= 2,
        !spec_is_padding(preset_word(p)[0]),
        !spec_is_padding(preset_word(p).last()),
        forall|j: int| 0 <= j < preset_word(p).len() ==> !is_line_end_char(#[trigger] preset_word(p)[j]) && preset_word(p)[j] != '：',
{
    reveal_strlit("その他");
    reveal_strlit("平手");
    reveal_strlit("香落ち");
    reveal_strlit("右香落ち");
    reveal_strlit("角落ち");
    reveal_strlit("飛車落ち");
    reveal_strlit("飛香落ち");
    reveal_strlit("二枚落ち");
    reveal_strlit("三枚落ち");
    reveal_strlit("四枚落ち");
    reveal_strlit("五枚落ち");
    reveal_strlit("左五枚落ち");
    reveal_strlit("六枚落ち");
    reveal_strlit("右七枚落ち");
    reveal_strlit("左七枚落ち");
    reveal_strlit("八枚落ち");
    reveal_strlit("十枚落ち");
}

proof fn lemma_named_preset_is_spelled_there(s: Seq<char>, q: int, k: int)
    requires
        0 <= k,
    ensures
        preset_named_from(s, q, k) matches Some((p, e)) ==> lit_at(s, q, preset_word(p)) && e == q + preset_word(p).len(),
    decreases 16 - k,
{
    reveal_strlit("その他");
    if 0 <= k < 16 {
        lemma_table_name(table_preset(k));
        lemma_named_preset_is_spelled_there(s, q, k + 1);
    }
}

/// A word the table names, spelled from `st` with nothing but padding to the
/// line's end, is the value of the line, its padding trimmed.
proof fn lemma_a_named_value(v: Seq<char>, a: int, p: Preset)
    requires
        0 <= a,
        a + preset_word(p).len() <= v.len(),
        v.subrange(a, a + preset_word(p).len()) == preset_word(p),
        forall|x: int| 0 <= x < a ==> spec_is_padding(#[trigger] v[x]),
        forall|x: int| a + preset_word(p).len() <= x < v.len() ==> spec_is_padding(#[trigger] v[x]),
    ensures
        spec_is_a_known_name(v),
{
    lemma_preset_word(p);
    let w = preset_word(p);
    let b = a + w.len();
    assert(v[a] == v.subrange(a, b)[0]);
    assert(v[b - 1] == v.subrange(a, b)[w.len() - 1]);
    crate::handicap::lemma_first_unique(v, a);
    crate::handicap::lemma_last_unique(v, b);
    assert(trim_padding(v) == v.subrange(a, b));
    if p != Preset::PresetOther {
        assert(spec_kif_name(p) == Some(trim_padding(v)));
    }
}

/// A header line whose key is plain is no `手合割` line, unless its key is
/// `手合割` and its value names a handicap the reader knows.
proof fn lemma_not_a_preset_line(s: Seq<char>, i: int, e: (String, String))
    requires
        is_a_plain_key(e.0@),
        forall|j: int| 0 <= j < one_line(e.1@).len() ==> !is_line_end_char(#[trigger] one_line(e.1@)[j]),
        !(e.0@ == "手合割"@ && spec_is_a_known_name(one_line(e.1@))),
        0 <= i,
        i + header_line(e).len() <= s.len(),
        s.subrange(i, i + header_line(e).len()) == header_line(e),
    ensures
        spec_information_line_preset(s, i) is None,
{
    reveal_strlit("：");
    reveal_strlit("\n");
    reveal_strlit("手合割");
    let k = e.0@;
    let v = one_line(e.1@);
    let t = header_line(e);
    let kl = k.len() as int;
    let c = i + kl;
    let ve = c + 1 + v.len();
    assert(t.len() == kl + 2 + v.len());
    assert(s.subrange(i, c) =~= k) by {
        assert forall|j: int| 0 <= j < kl implies s.subrange(i, c)[j] == k[j] by {
            assert(s.subrange(i, i + t.len())[j] == t[j]);
        }
    }
    assert(s[c] == '：') by { assert(s.subrange(i, i + t.len())[kl] == t[kl]); }
    assert(s[ve] == '\n') by { assert(s.subrange(i, i + t.len())[kl + 1 + v.len()] == t[kl + 1 + v.len()]); }
    assert(s.subrange(c + 1, ve) =~= v) by {
        assert forall|j: int| 0 <= j < v.len() implies s.subrange(c + 1, ve)[j] == v[j] by {
            assert(s.subrange(i, i + t.len())[kl + 1 + j] == t[kl + 1 + j]);
        }
    }
    assert(s[i] == k[0]) by { assert(s.subrange(i, c)[0] == s[i]); }
    assert(padding_end(s, i) == i);
    if lit_at(s, i, "手合割"@) {
        let q = padding_end(s, i + 3);
        assert(kl >= 3) by {
            if kl < 3 {
                assert(s.subrange(i, i + 3)[kl] == s[c]);
            }
        }
        if kl == 3 {
            assert(k =~= "手合割"@) by {
                assert forall|j: int| 0 <= j < 3 implies k[j] == "手合割"@[j] by {
                    assert(s.subrange(i, i + 3)[j] == s[i + j]);
                    assert(s.subrange(i, c)[j] == s[i + j]);
                }
            }
            assert(q == c);
            let st = padding_end(s, c + 1);
            lemma_padding_run(s, c + 1);
            lemma_padding_stops(s, c + 1, ve);
            lemma_named_preset_is_spelled_there(s, st, 0);
            if preset_named_from(s, st, 0) is Some {
                let (pr, e2) = preset_named_from(s, st, 0).unwrap();
                let w = preset_word(pr);
                lemma_preset_word(pr);
                assert(e2 <= ve) by {
                    if e2 > ve {
                        assert(s.subrange(st, e2)[ve - st] == s[ve]);
                    }
                }
                lemma_padding_run(s, e2);
                lemma_padding_stops(s, e2, ve);
                let pe = padding_end(s, e2);
                if eol_at(s, pe) is Some {
                    assert(pe == ve) by {
                        if pe < ve {
                            assert(s[pe] == s.subrange(c + 1, ve)[pe - c - 1]);
                        }
                    }
                    let a = st - (c + 1);
                    assert(v.subrange(a, a + w.len()) =~= w) by {
                        assert forall|j: int| 0 <= j < w.len() implies v.subrange(a, a + w.len())[j] == w[j] by {
                            assert(s.subrange(st, e2)[j] == s[st + j]);
                            assert(s.subrange(c + 1, ve)[a + j] == s[st + j]);
                        }
                    }
                    assert forall|x: int| 0 <= x < a implies spec_is_padding(#[trigger] v[x]) by {
                        assert(s.subrange(c + 1, ve)[x] == s[c + 1 + x]);
                    }
                    assert forall|x: int| a + w.len() <= x < v.len() implies spec_is_padding(#[trigger] v[x]) by {
                        assert(s.subrange(c + 1, ve)[x] == s[c + 1 + x]);
                    }
                    lemma_a_named_value(v, a, pr);
                }
            }
        } else {
            lemma_padding_stops_in_the_key(s, k, i, 3);
            lemma_padding_run(k, 3);
            assert(i + 3 <= q < c);
            if colon_at(s, q) {
                let st = padding_end(s, q + 1);
                lemma_padding_in_the_key(s, k, i, q + 1 - i);
                lemma_padding_run(k, q + 1 - i);
                assert(q + 1 <= st <= c);
                lemma_named_preset_is_spelled_there(s, st, 0);
                if preset_named_from(s, st, 0) is Some {
                    let (pr, e2) = preset_named_from(s, st, 0).unwrap();
                    let w = preset_word(pr);
                    lemma_preset_word(pr);
                    assert(e2 <= c) by {
                        if e2 > c {
                            assert(s.subrange(st, e2)[c - st] == s[c]);
                        }
                    }
                    lemma_padding_in_the_key(s, k, i, e2 - i);
                    lemma_padding_run(k, e2 - i);
                    let pe = padding_end(s, e2);
                    assert(i < pe <= c);
                    if pe < c {
                        assert(s[pe] == s.subrange(i, c)[pe - i]);
                    }
                    assert(eol_at(s, pe) is None);
                }
            }
        }
    }
}

/// A header line whose key is plain is no hand line.
proof fn lemma_not_a_hand_line(s: Seq<char>, i: int, k: Seq<char>)
    requires
        is_a_plain_key(k),
        0 <= i,
        i + k.len() < s.len(),
        s.subrange(i, i + k.len()) == k,
        s[i + k.len()] == '：',
    ensures
        hands_prefix(s, i) is None,
{
    reveal_strlit("の持駒");
    let kl = k.len() as int;
    assert(s[i] == k[0]) by { assert(s.subrange(i, i + kl)[0] == s[i]); }
    assert(padding_end(s, i) == i);
    if hands_prefix(s, i) is Some {
        assert(kl >= 5) by {
            if kl < 5 {
                assert(s.subrange(i + 2, i + 5)[kl - 2] == s[i + kl]);
            }
        }
        assert(k[1] == s[i + 1]) by { assert(s.subrange(i, i + kl)[1] == s[i + 1]); }
        assert(k.subrange(2, 5) =~= "の持駒"@) by {
            assert forall|j: int| 0 <= j < 3 implies k.subrange(2, 5)[j] == "の持駒"@[j] by {
                assert(s.subrange(i + 2, i + 5)[j] == s[i + 2 + j]);
                assert(s.subrange(i, i + kl)[2 + j] == s[i + 2 + j]);
            }
        }
        assert(s[i + 1] == '手');
        assert(k[0] == '先' || k[0] == '下' || k[0] == '後' || k[0] == '上');
        if kl > 5 {
            lemma_padding_stops_in_the_key(s, k, i, 5);
            lemma_padding_run(k, 5);
            let q = padding_end(s, i + 5);
            assert(q == i + padding_end(k, 5));
            assert(s[q] == k[padding_end(k, 5)]);
            assert(k[padding_end(k, 5)] != '：');
            assert(s[q] == ':');
        }
        assert(names_a_hand(k));
    }
}

/// One header line the writer writes, read at `i`.
proof fn lemma_header_line_reads_back(shapes: LineShapes, s: Seq<char>, i: int, e: (String, String))
    requires
        entry_reads_as_written(shapes, e),
        0 <= i,
        i + header_line(e).len() <= s.len(),
        s.subrange(i, i + header_line(e).len()) == header_line(e),
    ensures
        info_line(shapes, s, i) == Ok::<(InfoItem, int), Option<(int, LineFault)>>((
            InfoItem::KeyValue(e.0@, one_line(e.1@)),
            i + header_line(e).len(),
        )),
{
    reveal_strlit("：");
    reveal_strlit("\n");
    let k = e.0@;
    let v = one_line(e.1@);
    let t = header_line(e);
    let kl = k.len() as int;
    let c = i + kl;
    let ve = c + 1 + v.len();
    lemma_one_line_has_no_line_end(e.1@);
    assert(t.len() == kl + 2 + v.len());
    assert(s.subrange(i, c) =~= k) by {
        assert forall|j: int| 0 <= j < kl implies s.subrange(i, c)[j] == k[j] by {
            assert(s.subrange(i, i + t.len())[j] == t[j]);
        }
    }
    assert(s[c] == '：') by { assert(s.subrange(i, i + t.len())[kl] == t[kl]); }
    assert(s[ve] == '\n') by { assert(s.subrange(i, i + t.len())[kl + 1 + v.len()] == t[kl + 1 + v.len()]); }
    assert(s.subrange(c + 1, ve) =~= v) by {
        assert forall|j: int| 0 <= j < v.len() implies s.subrange(c + 1, ve)[j] == v[j] by {
            assert(s.subrange(i, i + t.len())[kl + 1 + j] == t[kl + 1 + j]);
        }
    }
    assert(s[i] == k[0]) by { assert(s.subrange(i, c)[0] == s[i]); }
    assert(padding_end(s, i) == i);
    assert(spec_comment_line(s, i) is None);
    assert(comment_lines_end(s, i) == i);
    assert(comment_text_line(s, i) is None);
    lemma_not_a_preset_line(s, i, e);
    lemma_not_a_hand_line(s, i, k);
    assert(spec_information_line_hands(s, i) is Err);
    // A key and its value.
    assert forall|x: int| i <= x < c implies !is_line_end_char(#[trigger] s[x]) && s[x] != '：' by {
        assert(s.subrange(i, c)[x - i] == s[x]);
    }
    lemma_key_stops_at_the_line_end_or_colon(s, i, c);
    assert(key_stop(s, i, true) == c);
    assert(trim_end_padding(k) =~= k);
    assert forall|x: int| c + 1 <= x < ve implies !is_line_end_char(#[trigger] s[x]) by {
        assert(s.subrange(c + 1, ve)[x - c - 1] == s[x]);
    }
    lemma_line_stop_at(s, c + 1, ve);
    assert(not_line_ending(s, c + 1) == Some(ve));
    assert(spec_keyvalue(shapes, s, i) == Ok::<(Seq<char>, Seq<char>, int), Option<(int, LineFault)>>((k, v, ve + 1)));
}

proof fn lemma_key_stops_at_the_line_end_or_colon(s: Seq<char>, j: int, c: int)
    requires
        0 <= j <= c < s.len(),
        s[c] == '：',
        forall|x: int| j <= x < c ==> !is_line_end_char(#[trigger] s[x]) && s[x] != '：',
    ensures
        key_stop(s, j, true) == c,
    decreases c - j,
{
    if j < c {
        lemma_key_stops_at_the_line_end_or_colon(s, j + 1, c);
    }
}

pub(crate) proof fn lemma_line_stop_at(s: Seq<char>, j: int, e: int)
    requires
        0 <= j <= e < s.len(),
        is_line_end_char(s[e]),
        forall|x: int| j <= x < e ==> !is_line_end_char(#[trigger] s[x]),
    ensures
        line_stop(s, j) == e,
    decreases e - j,
{
    if j < e {
        lemma_line_stop_at(s, j + 1, e);
    }
}

proof fn lemma_header_step(h: Seq<(String, String)>, k: int)
    requires
        0 <= k < h.len(),
    ensures
        spec_kakinoki_header(h.take(k + 1)) == spec_kakinoki_header(h.take(k)) + header_line(h[k]),
        read_header(h.take(k + 1)) == apply_info(read_header(h.take(k)), InfoItem::KeyValue(h[k].0@, one_line(h[k].1@))),
{
    assert(h.take(k + 1).drop_last() =~= h.take(k));
    assert(h.take(k + 1).last() == h[k]);
    assert(spec_kakinoki_header(h.take(k + 1)) =~= spec_kakinoki_header(h.take(k)) + header_line(h[k]));
}

proof fn lemma_header_text_prefix(h: Seq<(String, String)>, k: int, n: int)
    requires
        0 <= k <= n <= h.len(),
    ensures
        spec_kakinoki_header(h.take(k)).len() <= spec_kakinoki_header(h.take(n)).len(),
        spec_kakinoki_header(h.take(n)).subrange(0, spec_kakinoki_header(h.take(k)).len() as int)
            == spec_kakinoki_header(h.take(k)),
    decreases n - k,
{
    if k == n {
        assert(spec_kakinoki_header(h.take(n)).subrange(0, spec_kakinoki_header(h.take(n)).len() as int)
            =~= spec_kakinoki_header(h.take(n)));
    } else {
        lemma_header_text_prefix(h, k + 1, n);
        lemma_header_step(h, k);
        let a = spec_kakinoki_header(h.take(k));
        let b = spec_kakinoki_header(h.take(k + 1));
        let c = spec_kakinoki_header(h.take(n));
        assert(c.subrange(0, a.len() as int) =~= c.subrange(0, b.len() as int).subrange(0, a.len() as int));
        assert(b.subrange(0, a.len() as int) =~= a);
    }
}

/// The header lines the writer writes for the first `k` entries are read one
/// by one.
proof fn lemma_header_lines_read(shapes: LineShapes, h: Seq<(String, String)>, k: int)
    requires
        header_reads_as_written(shapes, h),
        0 <= k <= h.len(),
    ensures
        info_lines(shapes, spec_kakinoki_header(h), 0, empty_info())
            == info_lines(shapes, spec_kakinoki_header(h), spec_kakinoki_header(h.take(k)).len() as int, read_header(h.take(k))),
    decreases k,
{
    let s = spec_kakinoki_header(h);
    if k == 0 {
        assert(h.take(0) =~= Seq::<(String, String)>::empty());
    } else {
        lemma_header_lines_read(shapes, h, k - 1);
        lemma_header_step(h, k - 1);
        assert(h.take(h.len() as int) =~= h);
        lemma_header_text_prefix(h, k, h.len() as int);
        let a = spec_kakinoki_header(h.take(k - 1));
        let b = spec_kakinoki_header(h.take(k));
        let line = header_line(h[k - 1]);
        assert(b == a + line);
        assert(s.subrange(0, b.len() as int) == b);
        assert(s.subrange(a.len() as int, b.len() as int) =~= line) by {
            assert(s.subrange(a.len() as int, b.len() as int) =~= s.subrange(0, b.len() as int).subrange(a.len() as int, b.len() as int));
        }
        reveal_strlit("\n");
        reveal_strlit("：");
        assert(line.len() >= 2);
        lemma_header_line_reads_back(shapes, s, a.len() as int, h[k - 1]);
    }
}

proof fn lemma_read_header_touches_only_the_map(h: Seq<(String, String)>)
    ensures
        read_header(h).preset is None,
        read_header(h).hands == seq![Hand::spec_empty(), Hand::spec_empty()],
        read_header(h).comments.len() == 0,
    decreases h.len(),
{
    if h.len() > 0 {
        lemma_read_header_touches_only_the_map(h.drop_last());
    }
}

/// A header the KIF writer writes, one `key：value` line per entry, reads back
/// as those lines one after another whenever each entry reads as written (see
/// [`entry_reads_as_written`]: a `手合割` line naming a known handicap is read
/// as the handicap, and a value that carries a run of moves is refused in a
/// KI2 header): the block holds the entries and nothing else, and ends where
/// the text ends.
pub proof fn a_written_header_reads_back(shapes: LineShapes, h: Seq<(String, String)>)
    requires
        header_reads_as_written(shapes, h),
    ensures
        spec_parse_without_moves(shapes, spec_kakinoki_header(h)) matches Ok((v, n))
            && n == spec_kakinoki_header(h).len()
            && v.info == read_header(h)
            && v.board is None
            && v.side is None,
{
    let s = spec_kakinoki_header(h);
    let len = s.len() as int;
    lemma_header_lines_read(shapes, h, h.len() as int);
    assert(h.take(h.len() as int) =~= h);
    let acc = read_header(h);
    lemma_no_header_line(shapes, s, len, len);
    assert(info_lines(shapes, s, len, acc) == Ok::<(InfoView, int), (int, LineFault)>((acc, len)));
    assert(spec_board(s, len) is Err);
    assert(info_lines(shapes, s, len, empty_info()) == Ok::<(InfoView, int), (int, LineFault)>((empty_info(), len)));
    assert(side_to_move_line(shapes, s, len) == Ok::<(Option<Color>, int), (int, LineFault)>((None, len)));
    lemma_read_header_touches_only_the_map(h);
    assert(hand_sum(Hand::spec_empty(), Hand::spec_empty()) == Hand::spec_empty());
    let info = merged(acc, empty_info());
    assert(insert_all(acc.map, Seq::empty()) =~= acc.map);
    assert(info.hands =~= acc.hands);
    assert(info.comments =~= acc.comments);
    assert(info == acc);
    let view = HeaderView { info, board: None, side: None };
    assert(spec_parse_without_moves(shapes, s) == Ok::<(HeaderView, int), (int, LineFault)>((view, len)));
}

proof fn lemma_key_index_bounds(m: Seq<(Seq<char>, Seq<char>)>, k: Seq<char>, n: int)
    requires
        0 <= n <= m.len(),
    ensures
        -1 <= key_index(m, k, n) < n,
        key_index(m, k, n) >= 0 ==> m[key_index(m, k, n)].0 == k,
        forall|j: int| key_index(m, k, n) < j < n ==> (#[trigger] m[j]).0 != k,
    decreases n,
{
    if n > 0 && m[n - 1].0 != k {
        lemma_key_index_bounds(m, k, n - 1);
    }
}

proof fn lemma_key_index_same_keys(a: Seq<(Seq<char>, Seq<char>)>, b: Seq<(Seq<char>, Seq<char>)>, k: Seq<char>, n: int)
    requires
        0 <= n <= a.len(),
        n <= b.len(),
        forall|j: int| 0 <= j < n ==> (#[trigger] a[j]).0 == b[j].0,
    ensures
        key_index(a, k, n) == key_index(b, k, n),
    decreases n,
{
    if n > 0 {
        lemma_key_index_same_keys(a, b, k, n - 1);
    }
}

proof fn lemma_value_after_insert(m: Seq<(Seq<char>, Seq<char>)>, k: Seq<char>, v: Seq<char>, q: Seq<char>)
    ensures
        value_for(map_insert(m, k, v), q) == if q == k { Some(v) } else { value_for(m, q) },
{
    let n = m.len() as int;
    let i = key_index(m, k, n);
    lemma_key_index_bounds(m, k, n);
    lemma_key_index_bounds(m, q, n);
    let m2 = map_insert(m, k, v);
    if i >= 0 {
        assert(m2 == m.update(i, (k, v)));
        lemma_key_index_same_keys(m2, m, q, n);
        if q == k {
            assert(key_index(m2, q, n) == i);
        } else {
            let j = key_index(m, q, n);
            if j >= 0 {
                assert(j != i);
                assert(m2[j] == m[j]);
            }
        }
    } else {
        assert(m2 == m.push((k, v)));
        lemma_key_index_same_keys(m2, m, q, n);
        if q == k {
            assert(m2[n].0 == q);
            assert(key_index(m2, q, n + 1) == n);
        } else {
            assert(m2[n].0 != q);
            assert(key_index(m2, q, n + 1) == key_index(m2, q, n));
            let j = key_index(m, q, n);
            if j >= 0 {
                assert(m2[j] == m[j]);
            }
        }
    }
}

/// What a header read back holds for a key is the value of the last entry
/// the record had for it, with its line breaks taken out.
pub proof fn a_read_header_holds_the_last_value(h: Seq<(String, String)>, k: Seq<char>)
    ensures
        value_for(read_header(h).map, k) == match header_get(h, k) {
            Some(v) => Some(one_line(v)),
            None => None,
        },
    decreases h.len(),
{
    if h.len() > 0 {
        a_read_header_holds_the_last_value(h.drop_last(), k);
        lemma_value_after_insert(read_header(h.drop_last()).map, h.last().0@, one_line(h.last().1@), k);
    }
}
} // verus!
