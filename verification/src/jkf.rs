//! The JSON Kifu Format types and the vocabulary each format uses for them.

use vstd::prelude::*;
use crate::text::{str_eq, starts_with, ends_with, seq_starts_with, seq_ends_with};

verus! {

/// A side: 先手 or 後手.
#[derive(Clone, Copy, Debug, PartialEq, Eq, Structural)]
pub enum Color {
    /// 先手
    Black,
    /// 後手
    White,
}

impl Color {
    /// The other side.
    pub open spec fn spec_flip(self) -> Color {
        match self {
            Color::Black => Color::White,
            Color::White => Color::Black,
        }
    }

    /// The other side.
    #[verifier::when_used_as_spec(spec_flip)]
    pub fn flip(self) -> (c: Color)
        ensures
            c == self.spec_flip(),
    {
        match self {
            Color::Black => Color::White,
            Color::White => Color::Black,
        }
    }

    /// 0 for Black, 1 for White: the index of a side in `hands`.
    pub open spec fn spec_index(self) -> int {
        match self {
            Color::Black => 0,
            Color::White => 1,
        }
    }

    /// 0 for Black, 1 for White: the index of a side in `hands`.
    pub fn index(self) -> (i: usize)
        ensures
            i == self.spec_index(),
    {
        match self {
            Color::Black => 0,
            Color::White => 1,
        }
    }
}

/// A piece kind.
#[derive(Clone, Copy, Debug, PartialEq, Eq, Structural)]
pub enum Kind {
    /// 歩兵
    FU,
    /// 香車
    KY,
    /// 桂馬
    KE,
    /// 銀将
    GI,
    /// 金将
    KI,
    /// 角行
    KA,
    /// 飛車
    HI,
    /// 玉将
    OU,
    /// と金
    TO,
    /// 成香
    NY,
    /// 成桂
    NK,
    /// 成銀
    NG,
    /// 竜馬
    UM,
    /// 竜王
    RY,
}

/// A starting-position preset.
#[derive(Clone, Copy, Debug, PartialEq, Eq, Structural)]
pub enum Preset {
    /// 平手
    PresetHirate,
    /// 香落ち
    PresetKY,
    /// 右香落ち
    PresetKYR,
    /// 角落ち
    PresetKA,
    /// 飛車落ち
    PresetHI,
    /// 飛香落ち
    PresetHIKY,
    /// 二枚落ち
    Preset2,
    /// 三枚落ち
    Preset3,
    /// 四枚落ち
    Preset4,
    /// 五枚落ち
    Preset5,
    /// 左五枚落ち
    Preset5L,
    /// 六枚落ち
    Preset6,
    /// 左七枚落ち
    Preset7L,
    /// 右七枚落ち
    Preset7R,
    /// 八枚落ち
    Preset8,
    /// 十枚落ち
    Preset10,
    /// その他
    PresetOther,
}

/// A disambiguating suffix of the traditional notation.
#[derive(Clone, Copy, Debug, PartialEq, Eq, Structural)]
pub enum Relative {
    /// 左
    L,
    /// 直
    C,
    /// 右
    R,
    /// 上
    U,
    /// 寄
    M,
    /// 引
    D,
    /// 左上
    LU,
    /// 左寄
    LM,
    /// 左引
    LD,
    /// 右上
    RU,
    /// 右寄
    RM,
    /// 右引
    RD,
    /// 打
    H,
}

/// An outcome or another node that is not a move.
#[derive(Clone, Copy, Debug, PartialEq, Eq, Structural)]
pub enum MoveSpecial {
    /// 投了
    SpecialToryo,
    /// 中断
    SpecialChudan,
    /// 千日手
    SpecialSennichite,
    /// 手番側が時間切れで負け
    SpecialTimeUp,
    /// 反則負け
    SpecialIllegalMove,
    /// 先手の反則行為により後手の勝ち
    SpecialIllegalActionBlack,
    /// 後手の反則行為により先手の勝ち
    SpecialIllegalActionWhite,
    /// 持将棋
    SpecialJishogi,
    /// 入玉で勝ちの宣言
    SpecialKachi,
    /// 入玉で引き分けの宣言
    SpecialHikiwake,
    /// 待った
    SpecialMatta,
    /// 詰み
    SpecialTsumi,
    /// 不詰
    SpecialFuzumi,
    /// エラー
    SpecialError,
}

/// The characters of an optional string.
pub open spec fn opt_view(o: Option<&str>) -> Option<Seq<char>> {
    match o {
        Some(s) => Some(s@),
        None => None,
    }
}

/// The KIF word for an outcome, if KIF has one.
pub open spec fn spec_kif_word(s: MoveSpecial) -> Option<Seq<char>> {
    match s {
        MoveSpecial::SpecialToryo => Some("投了"@),
        MoveSpecial::SpecialChudan => Some("中断"@),
        MoveSpecial::SpecialSennichite => Some("千日手"@),
        MoveSpecial::SpecialTimeUp => Some("切れ負け"@),
        MoveSpecial::SpecialIllegalMove => Some("反則負け"@),
        MoveSpecial::SpecialIllegalActionBlack => Some("反則勝ち"@),
        MoveSpecial::SpecialIllegalActionWhite => Some("反則勝ち"@),
        MoveSpecial::SpecialJishogi => Some("持将棋"@),
        MoveSpecial::SpecialHikiwake => Some("持将棋"@),
        MoveSpecial::SpecialKachi => Some("入玉勝ち"@),
        MoveSpecial::SpecialTsumi => Some("詰み"@),
        MoveSpecial::SpecialFuzumi => Some("不詰"@),
        MoveSpecial::SpecialMatta => None,
        MoveSpecial::SpecialError => None,
    }
}

/// The outcome a KIF word names, `side_to_move` being whose turn it is at
/// that ply.
pub open spec fn spec_from_kif_word(w: Seq<char>, side_to_move: Color) -> Option<MoveSpecial> {
    if w == "投了"@ {
        Some(MoveSpecial::SpecialToryo)
    } else if w == "中断"@ {
        Some(MoveSpecial::SpecialChudan)
    } else if w == "千日手"@ {
        Some(MoveSpecial::SpecialSennichite)
    } else if w == "切れ負け"@ {
        Some(MoveSpecial::SpecialTimeUp)
    } else if w == "反則負け"@ {
        Some(MoveSpecial::SpecialIllegalMove)
    } else if w == "反則勝ち"@ {
        match side_to_move {
            Color::Black => Some(MoveSpecial::SpecialIllegalActionWhite),
            Color::White => Some(MoveSpecial::SpecialIllegalActionBlack),
        }
    } else if w == "持将棋"@ {
        Some(MoveSpecial::SpecialJishogi)
    } else if w == "入玉勝ち"@ {
        Some(MoveSpecial::SpecialKachi)
    } else if w == "詰み"@ {
        Some(MoveSpecial::SpecialTsumi)
    } else if w == "不詰"@ {
        Some(MoveSpecial::SpecialFuzumi)
    } else {
        None
    }
}

/// The side to move and the one who just moved, as KI2 names them.
pub open spec fn mover_name(side_to_move: Color) -> Seq<char> {
    match side_to_move {
        Color::Black => "先手"@,
        Color::White => "後手"@,
    }
}

/// The KI2 end-of-game phrase, the part after `まで<N>手で`.
pub open spec fn spec_ki2_phrase(s: MoveSpecial, side_to_move: Color) -> Seq<char> {
    let mover = mover_name(side_to_move);
    let opponent = mover_name(side_to_move.spec_flip());
    match s {
        MoveSpecial::SpecialToryo => opponent + "の勝ち"@,
        MoveSpecial::SpecialTimeUp => "時間切れにより"@ + opponent + "の勝ち"@,
        MoveSpecial::SpecialKachi => mover + "の入玉勝ち"@,
        MoveSpecial::SpecialIllegalActionBlack => "後手の反則勝ち"@,
        MoveSpecial::SpecialIllegalActionWhite => "先手の反則勝ち"@,
        MoveSpecial::SpecialIllegalMove => mover + "の反則負け"@,
        _ => match spec_kif_word(s) {
            Some(w) => w,
            None => "中断"@,
        },
    }
}

/// The outcome a KI2 phrase names, with `まで<N>手で` already removed.
pub open spec fn spec_from_ki2_phrase(p: Seq<char>, side_to_move: Color) -> Option<MoveSpecial> {
    if seq_starts_with(p, "時間切れ"@) {
        Some(MoveSpecial::SpecialTimeUp)
    } else if seq_ends_with(p, "反則勝ち"@) {
        if p == "先手の反則勝ち"@ {
            Some(MoveSpecial::SpecialIllegalActionWhite)
        } else if p == "後手の反則勝ち"@ {
            Some(MoveSpecial::SpecialIllegalActionBlack)
        } else {
            spec_from_kif_word("反則勝ち"@, side_to_move)
        }
    } else if seq_ends_with(p, "反則負け"@) {
        Some(MoveSpecial::SpecialIllegalMove)
    } else if seq_ends_with(p, "入玉勝ち"@) {
        Some(MoveSpecial::SpecialKachi)
    } else if seq_ends_with(p, "勝ち"@) {
        Some(MoveSpecial::SpecialToryo)
    } else {
        spec_from_kif_word(p, side_to_move)
    }
}

/// The CSA `%` keyword for an outcome, without the `%`.
pub open spec fn spec_csa_word(s: MoveSpecial) -> Seq<char> {
    match s {
        MoveSpecial::SpecialToryo => "TORYO"@,
        MoveSpecial::SpecialChudan => "CHUDAN"@,
        MoveSpecial::SpecialSennichite => "SENNICHITE"@,
        MoveSpecial::SpecialTimeUp => "TIME_UP"@,
        MoveSpecial::SpecialIllegalMove => "ILLEGAL_MOVE"@,
        MoveSpecial::SpecialIllegalActionBlack => "+ILLEGAL_ACTION"@,
        MoveSpecial::SpecialIllegalActionWhite => "-ILLEGAL_ACTION"@,
        MoveSpecial::SpecialJishogi => "JISHOGI"@,
        MoveSpecial::SpecialKachi => "KACHI"@,
        MoveSpecial::SpecialHikiwake => "HIKIWAKE"@,
        MoveSpecial::SpecialMatta => "MATTA"@,
        MoveSpecial::SpecialTsumi => "TSUMI"@,
        MoveSpecial::SpecialFuzumi => "FUZUMI"@,
        MoveSpecial::SpecialError => "ERROR"@,
    }
}

impl MoveSpecial {
    /// The KIF word for this outcome, or `None` when KIF has no word for it.
    ///
    /// `HIKIWAKE` is written 持将棋, so that the game still reads as drawn;
    /// `MATTA` and `ERROR` have no word at all.
    pub fn kif_word(self) -> (w: Option<&'static str>)
        ensures
            opt_view(w) == spec_kif_word(self),
    {
        match self {
            MoveSpecial::SpecialToryo => Some("投了"),
            MoveSpecial::SpecialChudan => Some("中断"),
            MoveSpecial::SpecialSennichite => Some("千日手"),
            MoveSpecial::SpecialTimeUp => Some("切れ負け"),
            MoveSpecial::SpecialIllegalMove => Some("反則負け"),
            MoveSpecial::SpecialIllegalActionBlack => Some("反則勝ち"),
            MoveSpecial::SpecialIllegalActionWhite => Some("反則勝ち"),
            MoveSpecial::SpecialJishogi => Some("持将棋"),
            MoveSpecial::SpecialHikiwake => Some("持将棋"),
            MoveSpecial::SpecialKachi => Some("入玉勝ち"),
            MoveSpecial::SpecialTsumi => Some("詰み"),
            MoveSpecial::SpecialFuzumi => Some("不詰"),
            MoveSpecial::SpecialMatta => None,
            MoveSpecial::SpecialError => None,
        }
    }

    /// Parses a KIF outcome word.
    ///
    /// `side_to_move` is whose turn it is at that ply. 反則勝ち means the move
    /// before it was the foul, so the offender is the other player.
    pub fn from_kif_word(word: &str, side_to_move: Color) -> (r: Option<MoveSpecial>)
        ensures
            r == spec_from_kif_word(word@, side_to_move),
    {
        if str_eq(word, "投了") {
            Some(MoveSpecial::SpecialToryo)
        } else if str_eq(word, "中断") {
            Some(MoveSpecial::SpecialChudan)
        } else if str_eq(word, "千日手") {
            Some(MoveSpecial::SpecialSennichite)
        } else if str_eq(word, "切れ負け") {
            Some(MoveSpecial::SpecialTimeUp)
        } else if str_eq(word, "反則負け") {
            Some(MoveSpecial::SpecialIllegalMove)
        } else if str_eq(word, "反則勝ち") {
            match side_to_move {
                Color::Black => Some(MoveSpecial::SpecialIllegalActionWhite),
                Color::White => Some(MoveSpecial::SpecialIllegalActionBlack),
            }
        } else if str_eq(word, "持将棋") {
            Some(MoveSpecial::SpecialJishogi)
        } else if str_eq(word, "入玉勝ち") {
            Some(MoveSpecial::SpecialKachi)
        } else if str_eq(word, "詰み") {
            Some(MoveSpecial::SpecialTsumi)
        } else if str_eq(word, "不詰") {
            Some(MoveSpecial::SpecialFuzumi)
        } else {
            None
        }
    }

    /// The KI2 end-of-game phrase, the part after `まで<N>手で`.
    ///
    /// `side_to_move` is whose turn it is at the ply the outcome occupies.
    pub fn ki2_phrase(self, side_to_move: Color) -> (p: String)
        ensures
            p@ == spec_ki2_phrase(self, side_to_move),
    {
        let (mover, opponent) = match side_to_move {
            Color::Black => ("先手", "後手"),
            Color::White => ("後手", "先手"),
        };
        let mut s = String::new();
        match self {
            MoveSpecial::SpecialToryo => {
                s.append(opponent);
                s.append("の勝ち");
            },
            MoveSpecial::SpecialTimeUp => {
                s.append("時間切れにより");
                s.append(opponent);
                s.append("の勝ち");
            },
            MoveSpecial::SpecialKachi => {
                s.append(mover);
                s.append("の入玉勝ち");
            },
            MoveSpecial::SpecialIllegalActionBlack => {
                s.append("後手の反則勝ち");
            },
            MoveSpecial::SpecialIllegalActionWhite => {
                s.append("先手の反則勝ち");
            },
            MoveSpecial::SpecialIllegalMove => {
                s.append(mover);
                s.append("の反則負け");
            },
            _ => {
                match self.kif_word() {
                    Some(w) => s.append(w),
                    None => s.append("中断"),
                }
            },
        }
        assert(s@ =~= spec_ki2_phrase(self, side_to_move));
        s
    }

    /// Parses a KI2 end-of-game phrase, with `まで<N>手で` already removed.
    pub fn from_ki2_phrase(phrase: &str, side_to_move: Color) -> (r: Option<MoveSpecial>)
        ensures
            r == spec_from_ki2_phrase(phrase@, side_to_move),
    {
        if starts_with(phrase, "時間切れ") {
            return Some(MoveSpecial::SpecialTimeUp);
        }
        if ends_with(phrase, "反則勝ち") {
            if str_eq(phrase, "先手の反則勝ち") {
                return Some(MoveSpecial::SpecialIllegalActionWhite);
            }
            if str_eq(phrase, "後手の反則勝ち") {
                return Some(MoveSpecial::SpecialIllegalActionBlack);
            }
            return MoveSpecial::from_kif_word("反則勝ち", side_to_move);
        }
        if ends_with(phrase, "反則負け") {
            return Some(MoveSpecial::SpecialIllegalMove);
        }
        if ends_with(phrase, "入玉勝ち") {
            return Some(MoveSpecial::SpecialKachi);
        }
        if ends_with(phrase, "勝ち") {
            return Some(MoveSpecial::SpecialToryo);
        }
        MoveSpecial::from_kif_word(phrase, side_to_move)
    }

    /// The CSA `%` keyword for this outcome, without the leading `%`.
    pub fn csa_word(self) -> (w: &'static str)
        ensures
            w@ == spec_csa_word(self),
    {
        match self {
            MoveSpecial::SpecialToryo => "TORYO",
            MoveSpecial::SpecialChudan => "CHUDAN",
            MoveSpecial::SpecialSennichite => "SENNICHITE",
            MoveSpecial::SpecialTimeUp => "TIME_UP",
            MoveSpecial::SpecialIllegalMove => "ILLEGAL_MOVE",
            MoveSpecial::SpecialIllegalActionBlack => "+ILLEGAL_ACTION",
            MoveSpecial::SpecialIllegalActionWhite => "-ILLEGAL_ACTION",
            MoveSpecial::SpecialJishogi => "JISHOGI",
            MoveSpecial::SpecialKachi => "KACHI",
            MoveSpecial::SpecialHikiwake => "HIKIWAKE",
            MoveSpecial::SpecialMatta => "MATTA",
            MoveSpecial::SpecialTsumi => "TSUMI",
            MoveSpecial::SpecialFuzumi => "FUZUMI",
            MoveSpecial::SpecialError => "ERROR",
        }
    }
}

/// A record: its header, where it starts, and its moves.
///
/// `header` keeps its entries in the order they were written. Index 0 of
/// `moves` is the starting position's slot: it holds that position's comments
/// and no move.
#[derive(Debug, PartialEq, Eq)]
pub struct JsonKifuFormat {
    /// 対局情報, as key and value.
    pub header: Vec<(String, String)>,
    /// 開始局面
    pub initial: Option<Initial>,
    /// 指し手
    pub moves: Vec<MoveFormat>,
}

/// Where a record starts.
#[derive(Clone, Copy, Debug, PartialEq, Eq)]
pub struct Initial {
    /// 手合割
    pub preset: Preset,
    /// 開始局面情報
    pub data: Option<StateFormat>,
}

/// A position spelled out: side to move, board and hands.
#[derive(Clone, Copy, Debug, PartialEq, Eq)]
pub struct StateFormat {
    /// 手番
    pub color: Color,
    /// 盤面, indexed `[file - 1][rank - 1]`.
    pub board: [[Piece; 9]; 9],
    /// 持ち駒, Black's then White's.
    pub hands: [Hand; 2],
}

/// The numbers of pieces in one hand.
#[allow(non_snake_case)]
#[derive(Clone, Copy, Debug, Default, PartialEq, Eq, Structural)]
pub struct Hand {
    /// 歩兵
    pub FU: u8,
    /// 香車
    pub KY: u8,
    /// 桂馬
    pub KE: u8,
    /// 銀将
    pub GI: u8,
    /// 金将
    pub KI: u8,
    /// 角行
    pub KA: u8,
    /// 飛車
    pub HI: u8,
}

/// What stands on one square of a board diagram.
#[derive(Clone, Copy, Debug, Default, PartialEq, Eq, Structural)]
pub struct Piece {
    /// 手番
    pub color: Option<Color>,
    /// 駒種
    pub kind: Option<Kind>,
}

/// One node of the move list.
#[derive(Debug, PartialEq, Eq)]
pub struct MoveFormat {
    /// 駒移動・駒打ち
    pub move_: Option<MoveMoveFormat>,
    /// コメント
    pub comments: Option<Vec<String>>,
    /// 消費時間
    pub time: Option<Time>,
    /// 特殊な指し手 (終局・中断など)
    pub special: Option<MoveSpecial>,
    /// 分岐・変化手順
    pub forks: Option<Vec<Vec<MoveFormat>>>,
}

/// A move or a drop.
#[derive(Clone, Copy, Debug, PartialEq, Eq, Structural)]
pub struct MoveMoveFormat {
    /// 手番
    pub color: Color,
    /// 移動元; `None` for a drop.
    pub from: Option<PlaceFormat>,
    /// 移動先
    pub to: PlaceFormat,
    /// 駒種
    pub piece: Kind,
    /// 同
    pub same: Option<bool>,
    /// 成
    pub promote: Option<bool>,
    /// 駒取り
    pub capture: Option<Kind>,
    /// 相対位置・動作
    pub relative: Option<Relative>,
}

/// A square, as file and rank.
#[derive(Clone, Copy, Debug, Default, PartialEq, Eq, Structural)]
pub struct PlaceFormat {
    /// 筋
    pub x: u8,
    /// 段
    pub y: u8,
}

/// The time spent on a move and the running total.
#[derive(Clone, Copy, Debug, Default, PartialEq, Eq, Structural)]
pub struct Time {
    /// 消費時間
    pub now: TimeFormat,
    /// 累積消費時間
    pub total: TimeFormat,
}

/// An amount of time.
#[derive(Clone, Copy, Debug, PartialEq, Eq, Structural)]
pub struct TimeFormat {
    /// 時間
    pub h: Option<u16>,
    /// 分; wider than a clock shows, because a KIF states a move's time as
    /// minutes and seconds with no limit on the minutes.
    pub m: u16,
    /// 秒
    pub s: u16,
}

impl TimeFormat {
    /// No time at all, with the hours unstated.
    pub open spec fn spec_default() -> TimeFormat {
        TimeFormat { h: None, m: 0, s: 0 }
    }
}

impl Default for TimeFormat {
    fn default() -> (t: TimeFormat)
        ensures
            t == TimeFormat::spec_default(),
    {
        TimeFormat { h: None, m: 0, s: 0 }
    }
}

impl MoveFormat {
    /// An empty node: no move, no comment, no time, no outcome, no branch.
    pub open spec fn spec_empty() -> MoveFormat {
        MoveFormat { move_: None, comments: None, time: None, special: None, forks: None }
    }

    /// Whether this node gets a ply number of its own: a move does, and so does
    /// an outcome. A node carrying only comments or only a time does not.
    pub open spec fn spec_occupies_a_ply(&self) -> bool {
        self.move_.is_some() || self.special.is_some()
    }

    /// Whether this node gets a ply number of its own.
    #[verifier::when_used_as_spec(spec_occupies_a_ply)]
    pub fn occupies_a_ply(&self) -> (b: bool)
        ensures
            b == self.spec_occupies_a_ply(),
    {
        self.move_.is_some() || self.special.is_some()
    }
}

impl Default for MoveFormat {
    fn default() -> (m: MoveFormat)
        ensures
            m == MoveFormat::spec_empty(),
    {
        MoveFormat { move_: None, comments: None, time: None, special: None, forks: None }
    }
}

impl Default for JsonKifuFormat {
    fn default() -> (j: JsonKifuFormat)
        ensures
            j.header@.len() == 0,
            j.initial.is_none(),
            j.moves@ == seq![MoveFormat::spec_empty()],
    {
        let mut moves = Vec::new();
        moves.push(MoveFormat::default());
        JsonKifuFormat { header: Vec::new(), initial: None, moves }
    }
}

impl Piece {
    /// An empty square.
    pub open spec fn spec_empty() -> Piece {
        Piece { color: None, kind: None }
    }

    /// An empty square.
    pub fn empty() -> (p: Piece)
        ensures
            p == Piece::spec_empty(),
    {
        Piece { color: None, kind: None }
    }
}

/// The promoted kind, or the kind itself when it does not promote.
pub open spec fn spec_promoted(k: Kind) -> Kind {
    match k {
        Kind::FU => Kind::TO,
        Kind::KY => Kind::NY,
        Kind::KE => Kind::NK,
        Kind::GI => Kind::NG,
        Kind::KA => Kind::UM,
        Kind::HI => Kind::RY,
        _ => k,
    }
}

/// The unpromoted kind, or the kind itself when it is not a promoted one.
pub open spec fn spec_unpromoted(k: Kind) -> Kind {
    match k {
        Kind::TO => Kind::FU,
        Kind::NY => Kind::KY,
        Kind::NK => Kind::KE,
        Kind::NG => Kind::GI,
        Kind::UM => Kind::KA,
        Kind::RY => Kind::HI,
        _ => k,
    }
}

/// Whether `k` has a promoted form.
pub open spec fn can_promote(k: Kind) -> bool {
    spec_promoted(k) != k
}

/// Whether `k` is a promoted form.
pub open spec fn is_promoted(k: Kind) -> bool {
    spec_unpromoted(k) != k
}

impl Kind {
    /// The promoted kind, or `self` when it does not promote.
    pub fn promoted(self) -> (k: Kind)
        ensures
            k == spec_promoted(self),
    {
        match self {
            Kind::FU => Kind::TO,
            Kind::KY => Kind::NY,
            Kind::KE => Kind::NK,
            Kind::GI => Kind::NG,
            Kind::KA => Kind::UM,
            Kind::HI => Kind::RY,
            _ => self,
        }
    }

    /// The unpromoted kind, or `self` when it is not a promoted one.
    pub fn unpromoted(self) -> (k: Kind)
        ensures
            k == spec_unpromoted(self),
    {
        match self {
            Kind::TO => Kind::FU,
            Kind::NY => Kind::KY,
            Kind::NK => Kind::KE,
            Kind::NG => Kind::GI,
            Kind::UM => Kind::KA,
            Kind::RY => Kind::HI,
            _ => self,
        }
    }
}

impl Hand {
    /// A hand with nothing in it.
    pub open spec fn spec_empty() -> Hand {
        Hand { FU: 0, KY: 0, KE: 0, GI: 0, KI: 0, KA: 0, HI: 0 }
    }

    /// A hand with nothing in it.
    pub fn empty() -> (h: Hand)
        ensures
            h == Hand::spec_empty(),
    {
        Hand { FU: 0, KY: 0, KE: 0, GI: 0, KI: 0, KA: 0, HI: 0 }
    }

    /// How many of `kind` the hand holds, or `None` for a king or a promoted
    /// piece, which cannot be held.
    pub open spec fn spec_slot(self, kind: Kind) -> Option<u8> {
        match kind {
            Kind::FU => Some(self.FU),
            Kind::KY => Some(self.KY),
            Kind::KE => Some(self.KE),
            Kind::GI => Some(self.GI),
            Kind::KI => Some(self.KI),
            Kind::KA => Some(self.KA),
            Kind::HI => Some(self.HI),
            _ => None,
        }
    }

    /// The hand with the count for `kind` (which the hand can hold) set to `n`.
    pub open spec fn spec_with(self, kind: Kind, n: u8) -> Hand {
        match kind {
            Kind::FU => Hand { FU: n, ..self },
            Kind::KY => Hand { KY: n, ..self },
            Kind::KE => Hand { KE: n, ..self },
            Kind::GI => Hand { GI: n, ..self },
            Kind::KI => Hand { KI: n, ..self },
            Kind::KA => Hand { KA: n, ..self },
            Kind::HI => Hand { HI: n, ..self },
            _ => self,
        }
    }

    /// How many of `kind` the hand holds, or `None` for a king or a promoted
    /// piece.
    pub fn slot(&self, kind: Kind) -> (n: Option<u8>)
        ensures
            n == self.spec_slot(kind),
    {
        match kind {
            Kind::FU => Some(self.FU),
            Kind::KY => Some(self.KY),
            Kind::KE => Some(self.KE),
            Kind::GI => Some(self.GI),
            Kind::KI => Some(self.KI),
            Kind::KA => Some(self.KA),
            Kind::HI => Some(self.HI),
            _ => None,
        }
    }

    pub(crate) fn set_slot(&mut self, kind: Kind, n: u8)
        ensures
            *final(self) == old(self).spec_with(kind, n),
    {
        match kind {
            Kind::FU => self.FU = n,
            Kind::KY => self.KY = n,
            Kind::KE => self.KE = n,
            Kind::GI => self.GI = n,
            Kind::KI => self.KI = n,
            Kind::KA => self.KA = n,
            Kind::HI => self.HI = n,
            _ => {},
        }
    }

    /// Adds one to `kind`. `None`, and the hand unchanged, if it cannot be
    /// held or would overflow.
    pub fn increment(&mut self, kind: Kind) -> (r: Option<()>)
        ensures
            r is Some <==> (old(self).spec_slot(kind) matches Some(n) && n < 255),
            r is Some ==> *final(self) == old(self).spec_with(kind, (old(self).spec_slot(kind).unwrap() + 1) as u8),
            r is None ==> *final(self) == *old(self),
    {
        match self.slot(kind) {
            Some(n) => {
                if n < 255 {
                    self.set_slot(kind, n + 1);
                    Some(())
                } else {
                    None
                }
            },
            None => None,
        }
    }

    /// Takes one from `kind`. `None`, and the hand unchanged, if it cannot be
    /// held or none are left.
    pub fn decrement(&mut self, kind: Kind) -> (r: Option<()>)
        ensures
            r is Some <==> (old(self).spec_slot(kind) matches Some(n) && n > 0),
            r is Some ==> *final(self) == old(self).spec_with(kind, (old(self).spec_slot(kind).unwrap() - 1) as u8),
            r is None ==> *final(self) == *old(self),
    {
        match self.slot(kind) {
            Some(n) => {
                if n > 0 {
                    self.set_slot(kind, n - 1);
                    Some(())
                } else {
                    None
                }
            },
            None => None,
        }
    }
}

} // verus!
