//! The handicap table.
//!
//! Every handicap is the even game minus a set of the upper hand's pieces, so
//! that set is the whole of the knowledge: the KIF name, the CSA `PI` spelling,
//! the squares to clear and the board to compare against are all views of it.

use vstd::prelude::*;
use crate::jkf::{Color, Initial, Kind, Piece, Preset};
use crate::notation::{is_padding, spec_is_padding};
use crate::text::str_eq;

verus! {

/// The keyword a KIF line names a handicap with.
pub const KIF_KEYWORD: &'static str = "手合割";

/// The name a record gives its starting position when it spells the board out.
pub const OTHER_NAME: &'static str = "その他";

/// A handicap: the name KIF gives it and what the upper hand takes off.
pub struct Handicap {
    /// The preset.
    pub preset: Preset,
    /// The word that follows `手合割：`.
    pub kif_name: &'static str,
    /// The pieces removed from the even game, as `(file, rank, kind)`, in the
    /// order CSA's `PI` spelling uses: rook, bishop, lances, knights, silvers,
    /// golds.
    pub removed: Vec<(u8, u8, Kind)>,
}

/// The upper hand's rook.
pub open spec fn hi() -> (u8, u8, Kind) { (8, 2, Kind::HI) }
/// The upper hand's bishop.
pub open spec fn ka() -> (u8, u8, Kind) { (2, 2, Kind::KA) }
/// The upper hand's right lance (file 9).
pub open spec fn ky_right() -> (u8, u8, Kind) { (9, 1, Kind::KY) }
/// The upper hand's left lance (file 1).
pub open spec fn ky_left() -> (u8, u8, Kind) { (1, 1, Kind::KY) }
/// The upper hand's right knight.
pub open spec fn ke_right() -> (u8, u8, Kind) { (8, 1, Kind::KE) }
/// The upper hand's left knight.
pub open spec fn ke_left() -> (u8, u8, Kind) { (2, 1, Kind::KE) }
/// The upper hand's right silver.
pub open spec fn gi_right() -> (u8, u8, Kind) { (7, 1, Kind::GI) }
/// The upper hand's left silver.
pub open spec fn gi_left() -> (u8, u8, Kind) { (3, 1, Kind::GI) }
/// The upper hand's right gold.
pub open spec fn ki_right() -> (u8, u8, Kind) { (6, 1, Kind::KI) }
/// The upper hand's left gold.
pub open spec fn ki_left() -> (u8, u8, Kind) { (4, 1, Kind::KI) }

/// The KIF name of a preset, or `None` for `その他`.
pub open spec fn spec_kif_name(p: Preset) -> Option<Seq<char>> {
    match p {
        Preset::PresetHirate => Some("平手"@),
        Preset::PresetKY => Some("香落ち"@),
        Preset::PresetKYR => Some("右香落ち"@),
        Preset::PresetKA => Some("角落ち"@),
        Preset::PresetHI => Some("飛車落ち"@),
        Preset::PresetHIKY => Some("飛香落ち"@),
        Preset::Preset2 => Some("二枚落ち"@),
        Preset::Preset3 => Some("三枚落ち"@),
        Preset::Preset4 => Some("四枚落ち"@),
        Preset::Preset5 => Some("五枚落ち"@),
        Preset::Preset5L => Some("左五枚落ち"@),
        Preset::Preset6 => Some("六枚落ち"@),
        Preset::Preset7R => Some("右七枚落ち"@),
        Preset::Preset7L => Some("左七枚落ち"@),
        Preset::Preset8 => Some("八枚落ち"@),
        Preset::Preset10 => Some("十枚落ち"@),
        Preset::PresetOther => None,
    }
}

/// The pieces a preset takes off the even game, or `None` for `その他`.
///
/// `左`/`右` are from the upper hand's seat, so the upper hand's left is file 1:
/// 香落ち takes 1一 and 左五枚落ち takes 2一.
pub open spec fn spec_removed(p: Preset) -> Option<Seq<(u8, u8, Kind)>> {
    match p {
        Preset::PresetHirate => Some(seq![]),
        Preset::PresetKY => Some(seq![ky_left()]),
        Preset::PresetKYR => Some(seq![ky_right()]),
        Preset::PresetKA => Some(seq![ka()]),
        Preset::PresetHI => Some(seq![hi()]),
        Preset::PresetHIKY => Some(seq![hi(), ky_left()]),
        Preset::Preset2 => Some(seq![hi(), ka()]),
        Preset::Preset3 => Some(seq![hi(), ka(), ky_left()]),
        Preset::Preset4 => Some(seq![hi(), ka(), ky_right(), ky_left()]),
        Preset::Preset5 => Some(seq![hi(), ka(), ky_right(), ky_left(), ke_right()]),
        Preset::Preset5L => Some(seq![hi(), ka(), ky_right(), ky_left(), ke_left()]),
        Preset::Preset6 => Some(seq![hi(), ka(), ky_right(), ky_left(), ke_right(), ke_left()]),
        Preset::Preset7R => Some(seq![hi(), ka(), ky_right(), ky_left(), ke_right(), ke_left(), gi_right()]),
        Preset::Preset7L => Some(seq![hi(), ka(), ky_right(), ky_left(), ke_right(), ke_left(), gi_left()]),
        Preset::Preset8 => Some(seq![hi(), ka(), ky_right(), ky_left(), ke_right(), ke_left(), gi_right(), gi_left()]),
        Preset::Preset10 => Some(seq![hi(), ka(), ky_right(), ky_left(), ke_right(), ke_left(), gi_right(), gi_left(), ki_right(), ki_left()]),
        Preset::PresetOther => None,
    }
}

/// The preset in row `i` of the table.
pub open spec fn table_preset(i: int) -> Preset {
    if i == 0 { Preset::PresetHirate }
    else if i == 1 { Preset::PresetKY }
    else if i == 2 { Preset::PresetKYR }
    else if i == 3 { Preset::PresetKA }
    else if i == 4 { Preset::PresetHI }
    else if i == 5 { Preset::PresetHIKY }
    else if i == 6 { Preset::Preset2 }
    else if i == 7 { Preset::Preset3 }
    else if i == 8 { Preset::Preset4 }
    else if i == 9 { Preset::Preset5 }
    else if i == 10 { Preset::Preset5L }
    else if i == 11 { Preset::Preset6 }
    else if i == 12 { Preset::Preset7R }
    else if i == 13 { Preset::Preset7L }
    else if i == 14 { Preset::Preset8 }
    else { Preset::Preset10 }
}

/// Whether `h` is the table's entry for its preset.
pub open spec fn is_entry(h: Handicap) -> bool {
    &&& spec_kif_name(h.preset) == Some(h.kif_name@)
    &&& spec_removed(h.preset) == Some(h.removed@)
}

fn removed_of(p: Preset) -> (v: Vec<(u8, u8, Kind)>)
    requires
        p != Preset::PresetOther,
    ensures
        spec_removed(p) == Some(v@),
{
    let hi = (8u8, 2u8, Kind::HI);
    let ka = (2u8, 2u8, Kind::KA);
    let ky_right = (9u8, 1u8, Kind::KY);
    let ky_left = (1u8, 1u8, Kind::KY);
    let ke_right = (8u8, 1u8, Kind::KE);
    let ke_left = (2u8, 1u8, Kind::KE);
    let gi_right = (7u8, 1u8, Kind::GI);
    let gi_left = (3u8, 1u8, Kind::GI);
    let ki_right = (6u8, 1u8, Kind::KI);
    let ki_left = (4u8, 1u8, Kind::KI);
    let v = match p {
        Preset::PresetHirate => vec![],
        Preset::PresetKY => vec![ky_left],
        Preset::PresetKYR => vec![ky_right],
        Preset::PresetKA => vec![ka],
        Preset::PresetHI => vec![hi],
        Preset::PresetHIKY => vec![hi, ky_left],
        Preset::Preset2 => vec![hi, ka],
        Preset::Preset3 => vec![hi, ka, ky_left],
        Preset::Preset4 => vec![hi, ka, ky_right, ky_left],
        Preset::Preset5 => vec![hi, ka, ky_right, ky_left, ke_right],
        Preset::Preset5L => vec![hi, ka, ky_right, ky_left, ke_left],
        Preset::Preset6 => vec![hi, ka, ky_right, ky_left, ke_right, ke_left],
        Preset::Preset7R => vec![hi, ka, ky_right, ky_left, ke_right, ke_left, gi_right],
        Preset::Preset7L => vec![hi, ka, ky_right, ky_left, ke_right, ke_left, gi_left],
        Preset::Preset8 => vec![hi, ka, ky_right, ky_left, ke_right, ke_left, gi_right, gi_left],
        _ => vec![hi, ka, ky_right, ky_left, ke_right, ke_left, gi_right, gi_left, ki_right, ki_left],
    };
    assert(spec_removed(p).unwrap() =~= v@);
    v
}

fn kif_name_of(p: Preset) -> (n: &'static str)
    requires
        p != Preset::PresetOther,
    ensures
        spec_kif_name(p) == Some(n@),
{
    match p {
        Preset::PresetHirate => "平手",
        Preset::PresetKY => "香落ち",
        Preset::PresetKYR => "右香落ち",
        Preset::PresetKA => "角落ち",
        Preset::PresetHI => "飛車落ち",
        Preset::PresetHIKY => "飛香落ち",
        Preset::Preset2 => "二枚落ち",
        Preset::Preset3 => "三枚落ち",
        Preset::Preset4 => "四枚落ち",
        Preset::Preset5 => "五枚落ち",
        Preset::Preset5L => "左五枚落ち",
        Preset::Preset6 => "六枚落ち",
        Preset::Preset7R => "右七枚落ち",
        Preset::Preset7L => "左七枚落ち",
        Preset::Preset8 => "八枚落ち",
        _ => "十枚落ち",
    }
}

/// The entry for `preset`, or `None` for [`Preset::PresetOther`], whose board
/// is carried in the data rather than named.
pub fn lookup(preset: Preset) -> (h: Option<Handicap>)
    ensures
        h is Some <==> preset != Preset::PresetOther,
        h matches Some(h) ==> h.preset == preset && is_entry(h),
{
    if preset == Preset::PresetOther {
        None
    } else {
        Some(Handicap { preset, kif_name: kif_name_of(preset), removed: removed_of(preset) })
    }
}

fn table_preset_exec(i: usize) -> (p: Preset)
    requires
        i < 16,
    ensures
        p == table_preset(i as int),
{
    if i == 0 { Preset::PresetHirate }
    else if i == 1 { Preset::PresetKY }
    else if i == 2 { Preset::PresetKYR }
    else if i == 3 { Preset::PresetKA }
    else if i == 4 { Preset::PresetHI }
    else if i == 5 { Preset::PresetHIKY }
    else if i == 6 { Preset::Preset2 }
    else if i == 7 { Preset::Preset3 }
    else if i == 8 { Preset::Preset4 }
    else if i == 9 { Preset::Preset5 }
    else if i == 10 { Preset::Preset5L }
    else if i == 11 { Preset::Preset6 }
    else if i == 12 { Preset::Preset7R }
    else if i == 13 { Preset::Preset7L }
    else if i == 14 { Preset::Preset8 }
    else { Preset::Preset10 }
}

/// Every handicap KIF names, `その他` aside, in the table's order.
pub fn handicaps() -> (t: Vec<Handicap>)
    ensures
        t@.len() == 16,
        forall|i: int| 0 <= i < 16 ==> #[trigger] t@[i].preset == table_preset(i) && is_entry(t@[i]),
{
    let mut t: Vec<Handicap> = Vec::new();
    let mut i: usize = 0;
    while i < 16
        invariant
            i <= 16,
            t@.len() == i,
            forall|j: int| 0 <= j < i ==> #[trigger] t@[j].preset == table_preset(j) && is_entry(t@[j]),
        decreases 16 - i,
    {
        let p = table_preset_exec(i);
        t.push(Handicap { preset: p, kif_name: kif_name_of(p), removed: removed_of(p) });
        i = i + 1;
    }
    t
}

/// Whose turn it is at the start of a preset: the upper hand moves first in
/// every handicap, so only the even game starts with Black.
pub open spec fn spec_side_to_move(preset: Preset) -> Color {
    match preset {
        Preset::PresetHirate => Color::Black,
        _ => Color::White,
    }
}

/// Whose turn it is at the start of a preset.
pub fn side_to_move(preset: Preset) -> (c: Color)
    ensures
        c == spec_side_to_move(preset),
{
    match preset {
        Preset::PresetHirate => Color::Black,
        _ => Color::White,
    }
}

/// Whose turn it is at ply 1: an explicit board states it, otherwise the
/// preset decides; no `initial` is the even game.
pub open spec fn spec_starting_side(initial: Option<Initial>) -> Color {
    match initial {
        None => Color::Black,
        Some(initial) => match initial.data {
            Some(data) => data.color,
            None => spec_side_to_move(initial.preset),
        },
    }
}

/// Whose turn it is at ply 1.
pub fn starting_side(initial: Option<&Initial>) -> (c: Color)
    ensures
        c == spec_starting_side(match initial { Some(i) => Some(*i), None => None }),
{
    match initial {
        None => Color::Black,
        Some(initial) => match &initial.data {
            Some(data) => data.color,
            None => side_to_move(initial.preset),
        },
    }
}

/// Whose turn it is at `ply`, given that `start` plays ply 1.
pub open spec fn spec_side_to_move_at_ply(start: Color, ply: int) -> Color {
    if ply % 2 == 1 { start } else { start.spec_flip() }
}

/// Whose turn it is at `ply`, given that `start` plays ply 1.
pub fn side_to_move_at_ply(start: Color, ply: usize) -> (c: Color)
    ensures
        c == spec_side_to_move_at_ply(start, ply as int),
{
    if ply % 2 == 1 { start } else { start.flip() }
}

/// The piece on `(file, rank)` (both 1-9) at the start of the even game.
pub open spec fn hirate_piece(file: int, rank: int) -> Piece {
    let back = if file == 1 || file == 9 { Kind::KY }
        else if file == 2 || file == 8 { Kind::KE }
        else if file == 3 || file == 7 { Kind::GI }
        else if file == 4 || file == 6 { Kind::KI }
        else { Kind::OU };
    if rank == 1 {
        Piece { color: Some(Color::White), kind: Some(back) }
    } else if rank == 9 {
        Piece { color: Some(Color::Black), kind: Some(back) }
    } else if rank == 3 {
        Piece { color: Some(Color::White), kind: Some(Kind::FU) }
    } else if rank == 7 {
        Piece { color: Some(Color::Black), kind: Some(Kind::FU) }
    } else if rank == 2 && file == 2 {
        Piece { color: Some(Color::White), kind: Some(Kind::KA) }
    } else if rank == 2 && file == 8 {
        Piece { color: Some(Color::White), kind: Some(Kind::HI) }
    } else if rank == 8 && file == 2 {
        Piece { color: Some(Color::Black), kind: Some(Kind::HI) }
    } else if rank == 8 && file == 8 {
        Piece { color: Some(Color::Black), kind: Some(Kind::KA) }
    } else {
        Piece { color: None, kind: None }
    }
}

fn hirate_piece_exec(file: u8, rank: u8) -> (p: Piece)
    ensures
        p == hirate_piece(file as int, rank as int),
{
    let back = if file == 1 || file == 9 { Kind::KY }
        else if file == 2 || file == 8 { Kind::KE }
        else if file == 3 || file == 7 { Kind::GI }
        else if file == 4 || file == 6 { Kind::KI }
        else { Kind::OU };
    if rank == 1 {
        Piece { color: Some(Color::White), kind: Some(back) }
    } else if rank == 9 {
        Piece { color: Some(Color::Black), kind: Some(back) }
    } else if rank == 3 {
        Piece { color: Some(Color::White), kind: Some(Kind::FU) }
    } else if rank == 7 {
        Piece { color: Some(Color::Black), kind: Some(Kind::FU) }
    } else if rank == 2 && file == 2 {
        Piece { color: Some(Color::White), kind: Some(Kind::KA) }
    } else if rank == 2 && file == 8 {
        Piece { color: Some(Color::White), kind: Some(Kind::HI) }
    } else if rank == 8 && file == 2 {
        Piece { color: Some(Color::Black), kind: Some(Kind::HI) }
    } else if rank == 8 && file == 8 {
        Piece { color: Some(Color::Black), kind: Some(Kind::KA) }
    } else {
        Piece { color: None, kind: None }
    }
}

/// Whether `(file, rank)` is one of the squares in `removed`.
pub open spec fn is_removed(removed: Seq<(u8, u8, Kind)>, file: int, rank: int) -> bool {
    exists|k: int| #![trigger removed[k]] 0 <= k < removed.len() && removed[k].0 == file && removed[k].1 == rank
}

/// The piece on `(file, rank)` at the start of `preset`, which is not `その他`.
pub open spec fn preset_piece(preset: Preset, file: int, rank: int) -> Piece {
    if is_removed(spec_removed(preset).unwrap(), file, rank) {
        Piece { color: None, kind: None }
    } else {
        hirate_piece(file, rank)
    }
}

/// Whether `b` (indexed `[file - 1][rank - 1]`) is the board `f` describes.
pub open spec fn board_is(b: [[Piece; 9]; 9], f: spec_fn(int, int) -> Piece) -> bool {
    forall|i: int, j: int| 0 <= i < 9 && 0 <= j < 9 ==> #[trigger] b@[i]@[j] == f(i + 1, j + 1)
}

/// The board of the even game.
pub fn hirate_board() -> (b: [[Piece; 9]; 9])
    ensures
        board_is(b, |f: int, r: int| hirate_piece(f, r)),
{
    let mut b = [[Piece::empty(); 9]; 9];
    let mut i: usize = 0;
    while i < 9
        invariant
            i <= 9,
            forall|x: int, y: int| 0 <= x < i && 0 <= y < 9 ==> #[trigger] b@[x]@[y] == hirate_piece(x + 1, y + 1),
        decreases 9 - i,
    {
        let mut j: usize = 0;
        while j < 9
            invariant
                i < 9,
                j <= 9,
                forall|x: int, y: int| 0 <= x < i && 0 <= y < 9 ==> #[trigger] b@[x]@[y] == hirate_piece(x + 1, y + 1),
                forall|y: int| 0 <= y < j ==> #[trigger] b@[i as int]@[y] == hirate_piece(i + 1, y + 1),
            decreases 9 - j,
        {
            b[i][j] = hirate_piece_exec((i + 1) as u8, (j + 1) as u8);
            j = j + 1;
        }
        i = i + 1;
    }
    b
}

/// The board `preset` starts from, or `None` for [`Preset::PresetOther`].
pub fn board(preset: Preset) -> (b: Option<[[Piece; 9]; 9]>)
    ensures
        b is Some <==> preset != Preset::PresetOther,
        b matches Some(b) ==> board_is(b, |f: int, r: int| preset_piece(preset, f, r)),
{
    let handicap = match lookup(preset) {
        Some(h) => h,
        None => return None,
    };
    let mut b = hirate_board();
    let removed = &handicap.removed;
    let mut k: usize = 0;
    while k < removed.len()
        invariant
            k <= removed@.len(),
            removed@ == spec_removed(preset).unwrap(),
            preset != Preset::PresetOther,
            forall|x: int, y: int| 0 <= x < 9 && 0 <= y < 9 ==> #[trigger] b@[x]@[y] == (
                if is_removed(removed@.take(k as int), x + 1, y + 1) { Piece::spec_empty() } else { hirate_piece(x + 1, y + 1) }),
        decreases removed@.len() - k,
    {
        let (file, rank, _) = removed[k];
        assert(1 <= file <= 9 && 1 <= rank <= 9);
        b[(file - 1) as usize][(rank - 1) as usize] = Piece::empty();
        assert forall|x: int, y: int| 0 <= x < 9 && 0 <= y < 9 implies #[trigger] b@[x]@[y] == (
            if is_removed(removed@.take(k + 1), x + 1, y + 1) { Piece::spec_empty() } else { hirate_piece(x + 1, y + 1) }) by {
            if is_removed(removed@.take(k as int), x + 1, y + 1) {
                let w = choose|w: int| #![trigger removed@.take(k as int)[w]] 0 <= w < k && removed@.take(k as int)[w].0 == x + 1 && removed@.take(k as int)[w].1 == y + 1;
                assert(removed@.take(k + 1)[w] == removed@.take(k as int)[w]);
            }
            if is_removed(removed@.take(k + 1), x + 1, y + 1) && !(x + 1 == file && y + 1 == rank) {
                let w = choose|w: int| #![trigger removed@.take(k + 1)[w]] 0 <= w < k + 1 && removed@.take(k + 1)[w].0 == x + 1 && removed@.take(k + 1)[w].1 == y + 1;
                assert(w < k);
                assert(removed@.take(k as int)[w] == removed@.take(k + 1)[w]);
            }
            if x + 1 == file && y + 1 == rank {
                assert(removed@.take(k + 1)[k as int] == removed@[k as int]);
            }
        }
        k = k + 1;
    }
    assert(removed@.take(removed@.len() as int) =~= removed@);
    Some(b)
}

/// Whether `name`, with the padding around it trimmed, is a `手合割` value the
/// reader turns into a [`Preset`]: `その他` or one of the table's names.
pub open spec fn spec_is_a_known_name(name: Seq<char>) -> bool {
    let t = trim_padding(name);
    t == "その他"@ || exists|p: Preset| spec_kif_name(p) == Some(t)
}

/// `s` without the padding at either end.
pub open spec fn trim_padding(s: Seq<char>) -> Seq<char> {
    let lead = first_non_padding(s);
    let trail = last_non_padding(s);
    if lead >= trail { Seq::empty() } else { s.subrange(lead, trail) }
}

/// The index of the first character of `s` that is not padding, or `s.len()`.
pub open spec fn first_non_padding(s: Seq<char>) -> int
    decreases s.len(),
{
    if s.len() == 0 { 0 }
    else if spec_is_padding(s[0]) { 1 + first_non_padding(s.drop_first()) }
    else { 0 }
}

/// One past the index of the last character of `s` that is not padding, or 0.
pub open spec fn last_non_padding(s: Seq<char>) -> int
    decreases s.len(),
{
    if s.len() == 0 { 0 }
    else if spec_is_padding(s.last()) { last_non_padding(s.drop_last()) }
    else { s.len() as int }
}


proof fn lemma_first_non_padding(s: Seq<char>)
    ensures
        0 <= first_non_padding(s) <= s.len(),
        forall|i: int| 0 <= i < first_non_padding(s) ==> spec_is_padding(#[trigger] s[i]),
        first_non_padding(s) < s.len() ==> !spec_is_padding(s[first_non_padding(s)]),
    decreases s.len(),
{
    if s.len() > 0 && spec_is_padding(s[0]) {
        lemma_first_non_padding(s.drop_first());
        assert forall|i: int| 0 <= i < first_non_padding(s) implies spec_is_padding(#[trigger] s[i]) by {
            if i > 0 {
                assert(s[i] == s.drop_first()[i - 1]);
            }
        }
    }
}

pub(crate) proof fn lemma_last_non_padding(s: Seq<char>)
    ensures
        0 <= last_non_padding(s) <= s.len(),
        forall|i: int| last_non_padding(s) <= i < s.len() ==> spec_is_padding(#[trigger] s[i]),
        last_non_padding(s) > 0 ==> !spec_is_padding(s[last_non_padding(s) - 1]),
    decreases s.len(),
{
    if s.len() > 0 && spec_is_padding(s.last()) {
        lemma_last_non_padding(s.drop_last());
        assert forall|i: int| last_non_padding(s) <= i < s.len() implies spec_is_padding(#[trigger] s[i]) by {
            if i < s.len() - 1 {
                assert(s[i] == s.drop_last()[i]);
            }
        }
    }
}

pub(crate) proof fn lemma_first_unique(s: Seq<char>, k: int)
    requires
        0 <= k <= s.len(),
        forall|i: int| 0 <= i < k ==> spec_is_padding(#[trigger] s[i]),
        k < s.len() ==> !spec_is_padding(s[k]),
    ensures
        first_non_padding(s) == k,
{
    lemma_first_non_padding(s);
    let f = first_non_padding(s);
    if f < k {
        assert(spec_is_padding(s[f]));
    } else if k < f {
        assert(spec_is_padding(s[k]));
    }
}

pub(crate) proof fn lemma_last_unique(s: Seq<char>, k: int)
    requires
        0 <= k <= s.len(),
        forall|i: int| k <= i < s.len() ==> spec_is_padding(#[trigger] s[i]),
        k > 0 ==> !spec_is_padding(s[k - 1]),
    ensures
        last_non_padding(s) == k,
{
    lemma_last_non_padding(s);
    let l = last_non_padding(s);
    if l < k {
        assert(spec_is_padding(s[k - 1]));
    } else if k < l {
        assert(spec_is_padding(s[l - 1]));
    }
}

/// `s` without the padding at either end.
pub fn trim_padding_str(s: &str) -> (t: &str)
    ensures
        t@ == trim_padding(s@),
{
    let n = s.unicode_len();
    let mut lead: usize = 0;
    while lead < n && is_padding(s.get_char(lead))
        invariant
            n == s@.len(),
            lead <= n,
            forall|i: int| 0 <= i < lead ==> spec_is_padding(#[trigger] s@[i]),
        decreases n - lead,
    {
        lead = lead + 1;
    }
    let mut trail: usize = n;
    while trail > 0 && is_padding(s.get_char(trail - 1))
        invariant
            n == s@.len(),
            trail <= n,
            forall|i: int| trail <= i < n ==> spec_is_padding(#[trigger] s@[i]),
        decreases trail,
    {
        trail = trail - 1;
    }
    proof {
        lemma_first_unique(s@, lead as int);
        lemma_last_unique(s@, trail as int);
    }
    if lead >= trail {
        let e = s.substring_char(0, 0);
        assert(e@ =~= Seq::<char>::empty());
        e
    } else {
        s.substring_char(lead, trail)
    }
}

proof fn lemma_every_name_is_in_the_table(p: Preset)
    requires
        p != Preset::PresetOther,
    ensures
        exists|i: int| 0 <= i < 16 && table_preset(i) == p,
{
    match p {
        Preset::PresetHirate => assert(table_preset(0) == p),
        Preset::PresetKY => assert(table_preset(1) == p),
        Preset::PresetKYR => assert(table_preset(2) == p),
        Preset::PresetKA => assert(table_preset(3) == p),
        Preset::PresetHI => assert(table_preset(4) == p),
        Preset::PresetHIKY => assert(table_preset(5) == p),
        Preset::Preset2 => assert(table_preset(6) == p),
        Preset::Preset3 => assert(table_preset(7) == p),
        Preset::Preset4 => assert(table_preset(8) == p),
        Preset::Preset5 => assert(table_preset(9) == p),
        Preset::Preset5L => assert(table_preset(10) == p),
        Preset::Preset6 => assert(table_preset(11) == p),
        Preset::Preset7R => assert(table_preset(12) == p),
        Preset::Preset7L => assert(table_preset(13) == p),
        Preset::Preset8 => assert(table_preset(14) == p),
        Preset::Preset10 => assert(table_preset(15) == p),
        Preset::PresetOther => {},
    }
}

/// Whether `name`, trimmed of padding, is a `手合割` value the reader turns into
/// a [`Preset`].
pub fn is_a_known_name(name: &str) -> (b: bool)
    ensures
        b == spec_is_a_known_name(name@),
{
    let t = trim_padding_str(name);
    if str_eq(t, OTHER_NAME) {
        return true;
    }
    let table = handicaps();
    let mut i: usize = 0;
    while i < table.len()
        invariant
            i <= table@.len(),
            table@.len() == 16,
            forall|j: int| 0 <= j < 16 ==> #[trigger] table@[j].preset == table_preset(j) && is_entry(table@[j]),
            forall|j: int| 0 <= j < i ==> spec_kif_name(#[trigger] table_preset(j)) != Some(t@),
            t@ == trim_padding(name@),
        decreases table@.len() - i,
    {
        if str_eq(table[i].kif_name, t) {
            assert(spec_kif_name(table@[i as int].preset) == Some(t@));
            return true;
        }
        i = i + 1;
    }
    proof {
        if exists|p: Preset| spec_kif_name(p) == Some(t@) {
            let p = choose|p: Preset| spec_kif_name(p) == Some(t@);
            lemma_every_name_is_in_the_table(p);
            let j = choose|j: int| 0 <= j < 16 && table_preset(j) == p;
            assert(spec_kif_name(table_preset(j)) != Some(t@));
        }
    }
    false
}

} // verus!
