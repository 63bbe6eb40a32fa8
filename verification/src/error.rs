//! Error definitions.

use vstd::prelude::*;
use crate::jkf::{Kind, Preset};
use crate::notation::{coordinate, coordinates, move_text, spec_coordinate, spec_coordinates, spec_move_text};
use crate::position::{PieceMove, Square};
use crate::text::{decimal, push_decimal};
use crate::usi::{spec_move_usi, move_usi};

verus! {

/// An error that can occur while turning a record into a position, or while
/// spelling one in a format that cannot say what it holds.
#[derive(Debug, PartialEq)]
pub enum ConvertError {
    /// Board data is required when the preset is `OTHER`.
    InitialBoardNoDataWithPresetOTHER,
    /// `(file, rank)` is not a square of the board.
    InvalidSquare((u8, u8)),
    /// A piece kind that cannot be held in hand.
    InvalidHandPiece(Kind),
    /// The record could not be normalized.
    Normalize(Box<NormalizeError>),
    /// A number the notation has no spelling for: a coordinate outside 1-9 or
    /// more pieces in hand than a set contains.
    UnspellableNumber(u8),
    /// A preset with no board to write.
    UnknownPreset(Preset),
    /// A move that more than one piece could have made and that the
    /// traditional notation has no suffix to single out.
    UnspellableMove(PieceMove),
}

/// An error that can occur while normalizing a record, and the move it
/// happened on.
#[derive(Debug, PartialEq)]
pub struct NormalizeError {
    /// Which move, indexed the way JKF indexes `moves`: 0 is the starting
    /// position itself, and the first move is 1.
    pub ply: usize,
    /// What went wrong.
    pub kind: NormalizeErrorKind,
}

/// What went wrong while normalizing. See [`NormalizeError`] for where.
#[derive(Debug, PartialEq)]
pub enum NormalizeErrorKind {
    /// More than one piece (or none) fits the move's origin.
    AmbiguousMoveFrom(Vec<Square>),
    /// A `同` move with no move before it.
    NoLastMove,
    /// The move's origin holds no piece.
    NoPieceAt(Square),
    /// The position cannot apply the move.
    MakeMoveFailed(PieceMove),
    /// The record could not be turned into a position.
    Convert(Box<ConvertError>),
    /// The move is played by the side that is not to move.
    InvalidColor,
}

/// Errors that can occur while reading a record.
#[derive(Debug, PartialEq)]
pub enum ParseError {
    /// Reading the file failed.
    Io(String),
    /// The `csa` crate refused the text.
    Csa(String),
    /// The JSON could not be read as a record.
    Serde(String),
    /// The parsed CSA record could not be turned into a JKF.
    CsaConvert(String),
    /// A KIF string could not be read.
    Kif(String),
    /// A KI2 string could not be read.
    Ki2(String),
    /// Neither encoding decodes the bytes cleanly.
    Decode,
    /// The file extension is not one this reader claims.
    FileExtension,
    /// The parsed record could not be normalized.
    Normalize(NormalizeError),
}

impl NormalizeError {
    /// The error `kind` reports for `ply`.
    pub fn at(ply: usize, kind: NormalizeErrorKind) -> (e: NormalizeError)
        ensures
            e.ply == ply,
            e.kind == kind,
    {
        NormalizeError { ply, kind }
    }
}

impl From<NormalizeError> for ConvertError {
    fn from(err: NormalizeError) -> ConvertError {
        ConvertError::Normalize(Box::new(err))
    }
}

impl vstd::std_specs::convert::FromSpecImpl<NormalizeError> for ConvertError {
    open spec fn obeys_from_spec() -> bool {
        true
    }

    open spec fn from_spec(err: NormalizeError) -> ConvertError {
        ConvertError::Normalize(Box::new(err))
    }
}

impl From<ConvertError> for NormalizeErrorKind {
    fn from(err: ConvertError) -> NormalizeErrorKind {
        NormalizeErrorKind::Convert(Box::new(err))
    }
}

impl vstd::std_specs::convert::FromSpecImpl<ConvertError> for NormalizeErrorKind {
    open spec fn obeys_from_spec() -> bool {
        true
    }

    open spec fn from_spec(err: ConvertError) -> NormalizeErrorKind {
        NormalizeErrorKind::Convert(Box::new(err))
    }
}

impl From<NormalizeError> for ParseError {
    fn from(err: NormalizeError) -> ParseError {
        ParseError::Normalize(err)
    }
}

impl vstd::std_specs::convert::FromSpecImpl<NormalizeError> for ParseError {
    open spec fn obeys_from_spec() -> bool {
        true
    }

    open spec fn from_spec(err: NormalizeError) -> ParseError {
        ParseError::Normalize(err)
    }
}

/// The name a JKF file gives a preset.
pub open spec fn spec_preset_name(p: Preset) -> Seq<char> {
    match p {
        Preset::PresetHirate => "HIRATE"@,
        Preset::PresetKY => "KY"@,
        Preset::PresetKYR => "KY_R"@,
        Preset::PresetKA => "KA"@,
        Preset::PresetHI => "HI"@,
        Preset::PresetHIKY => "HIKY"@,
        Preset::Preset2 => "2"@,
        Preset::Preset3 => "3"@,
        Preset::Preset4 => "4"@,
        Preset::Preset5 => "5"@,
        Preset::Preset5L => "5_L"@,
        Preset::Preset6 => "6"@,
        Preset::Preset7L => "7_L"@,
        Preset::Preset7R => "7_R"@,
        Preset::Preset8 => "8"@,
        Preset::Preset10 => "10"@,
        Preset::PresetOther => "OTHER"@,
    }
}

/// The name a JKF file gives a preset.
pub fn preset_name(p: Preset) -> (s: &'static str)
    ensures
        s@ == spec_preset_name(p),
{
    match p {
        Preset::PresetHirate => "HIRATE",
        Preset::PresetKY => "KY",
        Preset::PresetKYR => "KY_R",
        Preset::PresetKA => "KA",
        Preset::PresetHI => "HI",
        Preset::PresetHIKY => "HIKY",
        Preset::Preset2 => "2",
        Preset::Preset3 => "3",
        Preset::Preset4 => "4",
        Preset::Preset5 => "5",
        Preset::Preset5L => "5_L",
        Preset::Preset6 => "6",
        Preset::Preset7L => "7_L",
        Preset::Preset7R => "7_R",
        Preset::Preset8 => "8",
        Preset::Preset10 => "10",
        Preset::PresetOther => "OTHER",
    }
}

/// The name a JKF file gives a piece kind.
pub open spec fn spec_kind_name(k: Kind) -> Seq<char> {
    match k {
        Kind::FU => "FU"@,
        Kind::KY => "KY"@,
        Kind::KE => "KE"@,
        Kind::GI => "GI"@,
        Kind::KI => "KI"@,
        Kind::KA => "KA"@,
        Kind::HI => "HI"@,
        Kind::OU => "OU"@,
        Kind::TO => "TO"@,
        Kind::NY => "NY"@,
        Kind::NK => "NK"@,
        Kind::NG => "NG"@,
        Kind::UM => "UM"@,
        Kind::RY => "RY"@,
    }
}

/// The name a JKF file (and CSA) gives a piece kind.
pub fn kind_name(k: Kind) -> (s: &'static str)
    ensures
        s@ == spec_kind_name(k),
{
    match k {
        Kind::FU => "FU",
        Kind::KY => "KY",
        Kind::KE => "KE",
        Kind::GI => "GI",
        Kind::KI => "KI",
        Kind::KA => "KA",
        Kind::HI => "HI",
        Kind::OU => "OU",
        Kind::TO => "TO",
        Kind::NY => "NY",
        Kind::NK => "NK",
        Kind::NG => "NG",
        Kind::UM => "UM",
        Kind::RY => "RY",
    }
}

/// What a [`ConvertError`] says.
pub open spec fn spec_convert_message(e: ConvertError) -> Seq<char>
    decreases e,
{
    match e {
        ConvertError::InitialBoardNoDataWithPresetOTHER => "Invalid initial board: no data with preset `OTHER`"@,
        ConvertError::InvalidSquare((f, r)) => "Invalid (file, rank) for `Square`: ("@ + decimal(f as nat) + ", "@ + decimal(r as nat) + ")"@,
        ConvertError::InvalidHandPiece(k) => "Invalid piece kind for `Hand`: "@ + spec_kind_name(k),
        ConvertError::Normalize(n) => "Failed to normalize: "@ + spec_normalize_message(*n),
        ConvertError::UnspellableNumber(n) => "No spelling for the number "@ + decimal(n as nat),
        ConvertError::UnknownPreset(p) => "No board for the preset "@ + spec_preset_name(p),
        ConvertError::UnspellableMove(m) => "No suffix singles out the move "@ + spec_move_text(m),
    }
}

/// What a [`NormalizeError`] says.
pub open spec fn spec_normalize_message(e: NormalizeError) -> Seq<char>
    decreases e,
{
    let kind = spec_kind_message(e.kind);
    if e.ply == 0 {
        kind + " in the initial position"@
    } else {
        kind + " at ply "@ + decimal(e.ply as nat)
    }
}

/// What a [`NormalizeErrorKind`] says.
pub open spec fn spec_kind_message(k: NormalizeErrorKind) -> Seq<char>
    decreases k,
{
    match k {
        NormalizeErrorKind::AmbiguousMoveFrom(v) => "Move `from` is ambiguous: "@ + spec_coordinates(v@),
        NormalizeErrorKind::NoLastMove => "No previous move"@,
        NormalizeErrorKind::NoPieceAt(sq) => "No pieces at "@ + spec_coordinate(sq),
        NormalizeErrorKind::MakeMoveFailed(m) => "Invalid move: "@ + spec_move_text(m) + " ("@ + spec_move_usi(m) + ")"@,
        NormalizeErrorKind::Convert(c) => "Failed to convert: "@ + spec_convert_message(*c),
        NormalizeErrorKind::InvalidColor => "Invalid color"@,
    }
}

impl ConvertError {
    /// What the error says.
    pub fn message(&self) -> (s: String)
        ensures
            s@ == spec_convert_message(*self),
        decreases *self,
    {
        let mut s = String::new();
        match self {
            ConvertError::InitialBoardNoDataWithPresetOTHER => {
                s.append("Invalid initial board: no data with preset `OTHER`");
            },
            ConvertError::InvalidSquare((f, r)) => {
                s.append("Invalid (file, rank) for `Square`: (");
                push_decimal(&mut s, *f as u64, 0, ' ');
                s.append(", ");
                push_decimal(&mut s, *r as u64, 0, ' ');
                s.append(")");
            },
            ConvertError::InvalidHandPiece(k) => {
                s.append("Invalid piece kind for `Hand`: ");
                s.append(kind_name(*k));
            },
            ConvertError::Normalize(n) => {
                s.append("Failed to normalize: ");
                let m = n.message();
                s.append(m.as_str());
            },
            ConvertError::UnspellableNumber(n) => {
                s.append("No spelling for the number ");
                push_decimal(&mut s, *n as u64, 0, ' ');
            },
            ConvertError::UnknownPreset(p) => {
                s.append("No board for the preset ");
                s.append(preset_name(*p));
            },
            ConvertError::UnspellableMove(m) => {
                s.append("No suffix singles out the move ");
                let t = move_text(*m);
                s.append(t.as_str());
            },
        }
        assert(s@ =~= spec_convert_message(*self));
        s
    }
}

impl NormalizeError {
    /// What the error says.
    pub fn message(&self) -> (s: String)
        ensures
            s@ == spec_normalize_message(*self),
        decreases *self,
    {
        let mut s = self.kind.message();
        if self.ply == 0 {
            s.append(" in the initial position");
        } else {
            s.append(" at ply ");
            push_decimal(&mut s, self.ply as u64, 0, ' ');
        }
        s
    }
}

impl NormalizeErrorKind {
    /// What the error says.
    pub fn message(&self) -> (s: String)
        ensures
            s@ == spec_kind_message(*self),
        decreases *self,
    {
        let mut s = String::new();
        match self {
            NormalizeErrorKind::AmbiguousMoveFrom(v) => {
                s.append("Move `from` is ambiguous: ");
                let c = coordinates(v);
                s.append(c.as_str());
            },
            NormalizeErrorKind::NoLastMove => {
                s.append("No previous move");
            },
            NormalizeErrorKind::NoPieceAt(sq) => {
                s.append("No pieces at ");
                let c = coordinate(*sq);
                s.append(c.as_str());
            },
            NormalizeErrorKind::MakeMoveFailed(m) => {
                s.append("Invalid move: ");
                let t = move_text(*m);
                s.append(t.as_str());
                s.append(" (");
                let u = move_usi(*m);
                s.append(u.as_str());
                s.append(")");
            },
            NormalizeErrorKind::Convert(c) => {
                s.append("Failed to convert: ");
                let m = c.message();
                s.append(m.as_str());
            },
            NormalizeErrorKind::InvalidColor => {
                s.append("Invalid color");
            },
        }
        assert(s@ =~= spec_kind_message(*self));
        s
    }
}

} // verus!
