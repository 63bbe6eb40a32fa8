//! A position as plain values: the board, both hands, the side to move and the
//! move that led here.
//!
//! This is what the normalizer and the writers track while they walk a record.
//! Applying a move is done here; the questions that take a move generator to
//! answer (which pieces can legally reach a square, whether a move is valid
//! before king safety, how the traditional notation spells a move, the SFEN of
//! a position) are asked of `shogi_core`, `shogi_legality_lite` and
//! `shogi_official_kifu` through the wrappers at the end of this file.

use vstd::prelude::*;
use crate::jkf::{Color, Kind, Hand, Initial, MoveMoveFormat, Piece, PlaceFormat, Preset, spec_promoted, spec_unpromoted, can_promote, is_promoted};
use crate::error::ConvertError;
use crate::handicap::{board_is, hirate_board, hirate_piece, preset_piece, spec_side_to_move};

verus! {

/// A square of the board: a file and a rank, both 1-9.
#[derive(Clone, Copy, Debug, PartialEq, Eq, Structural)]
pub struct Square {
    pub(crate) file: u8,
    pub(crate) rank: u8,
}

impl Square {
    #[verifier::type_invariant]
    spec fn on_the_board(self) -> bool {
        1 <= self.file <= 9 && 1 <= self.rank <= 9
    }

    /// The file, 1-9.
    pub closed spec fn spec_file(self) -> u8 {
        self.file
    }

    /// The rank, 1-9.
    pub closed spec fn spec_rank(self) -> u8 {
        self.rank
    }

    /// The square at `(file, rank)`, when both are 1-9.
    pub closed spec fn spec_new(file: u8, rank: u8) -> Square {
        Square { file, rank }
    }

    /// The file and rank a square is made with are the ones it reports.
    pub broadcast proof fn lemma_spec_new(file: u8, rank: u8)
        ensures
            #[trigger] Square::spec_new(file, rank).spec_file() == file,
            Square::spec_new(file, rank).spec_rank() == rank,
    {
    }

    /// The square at flat index `i` (0-80).
    pub open spec fn spec_at(i: int) -> Square {
        Square::spec_new((i / 9 + 1) as u8, (i % 9 + 1) as u8)
    }

    /// The square at `(file, rank)`, or `None` when either is outside 1-9.
    pub fn new(file: u8, rank: u8) -> (r: Option<Square>)
        ensures
            r == (if 1 <= file <= 9 && 1 <= rank <= 9 { Some(Square::spec_new(file, rank)) } else { None }),
    {
        if 1 <= file && file <= 9 && 1 <= rank && rank <= 9 {
            Some(Square { file, rank })
        } else {
            None
        }
    }

    /// The file, 1-9.
    pub fn file(&self) -> (f: u8)
        ensures
            f == self.spec_file(),
            1 <= f <= 9,
    {
        proof { use_type_invariant(self); }
        self.file
    }

    /// The rank, 1-9.
    pub fn rank(&self) -> (r: u8)
        ensures
            r == self.spec_rank(),
            1 <= r <= 9,
    {
        proof { use_type_invariant(self); }
        self.rank
    }

    /// Where the square sits in the flat board array.
    pub open spec fn spec_index(self) -> int {
        (self.spec_file() - 1) * 9 + (self.spec_rank() - 1)
    }

    /// Where the square sits in the flat board array.
    pub fn index(&self) -> (i: usize)
        ensures
            i == self.spec_index(),
            i < 81,
    {
        let f = self.file();
        let r = self.rank();
        ((f - 1) as usize) * 9 + ((r - 1) as usize)
    }

    /// The rank as `side` sees it: 1 is the far end of the board.
    pub open spec fn spec_relative_rank(self, side: Color) -> int {
        match side {
            Color::Black => self.spec_rank() as int,
            Color::White => 10 - self.spec_rank(),
        }
    }

    /// The file as `side` sees it.
    pub open spec fn spec_relative_file(self, side: Color) -> int {
        match side {
            Color::Black => self.spec_file() as int,
            Color::White => 10 - self.spec_file(),
        }
    }

    /// The rank as `side` sees it: 1 is the far end of the board.
    pub fn relative_rank(&self, side: Color) -> (r: u8)
        ensures
            r == self.spec_relative_rank(side),
            1 <= r <= 9,
    {
        let rank = self.rank();
        match side {
            Color::Black => rank,
            Color::White => 10 - rank,
        }
    }

    /// The file as `side` sees it.
    pub fn relative_file(&self, side: Color) -> (f: u8)
        ensures
            f == self.spec_relative_file(side),
            1 <= f <= 9,
    {
        let file = self.file();
        match side {
            Color::Black => file,
            Color::White => 10 - file,
        }
    }

    /// The square at flat index `i`.
    pub fn from_index(i: usize) -> (sq: Square)
        requires
            i < 81,
        ensures
            sq == Square::spec_at(i as int),
            sq.spec_index() == i,
    {
        Square { file: (i / 9 + 1) as u8, rank: (i % 9 + 1) as u8 }
    }
}

/// A piece on the board or in a drop: its kind and its owner.
#[derive(Clone, Copy, Debug, PartialEq, Eq, Structural)]
pub struct CorePiece {
    /// 駒種
    pub kind: Kind,
    /// 手番
    pub color: Color,
}

/// A move as a position applies it.
#[derive(Clone, Copy, Debug, PartialEq, Eq, Structural)]
pub enum PieceMove {
    /// A piece moves from one square to another, and may promote.
    Normal { from: Square, to: Square, promote: bool },
    /// A piece from the hand is put on an empty square.
    Drop { piece: CorePiece, to: Square },
}

impl PieceMove {
    /// The square the move ends on.
    pub open spec fn spec_to(self) -> Square {
        match self {
            PieceMove::Normal { to, .. } => to,
            PieceMove::Drop { to, .. } => to,
        }
    }

    /// The square the move ends on.
    pub fn to(&self) -> (sq: Square)
        ensures
            sq == self.spec_to(),
    {
        match self {
            PieceMove::Normal { to, .. } => *to,
            PieceMove::Drop { to, .. } => *to,
        }
    }
}

/// A position: board, hands, side to move, and the last move played.
///
/// `board` is indexed by [`Square::index`]; `hands` is Black's then White's.
#[derive(Clone, Copy, Debug, PartialEq, Eq)]
pub struct BoardState {
    /// What stands on each square.
    pub board: [Option<CorePiece>; 81],
    /// The pieces in hand.
    pub hands: [Hand; 2],
    /// Whose turn it is.
    pub side: Color,
    /// The move that led to this position, if any.
    pub last_move: Option<PieceMove>,
}

/// The mathematical content of a [`BoardState`].
pub struct PositionView {
    /// What stands on each square, by [`Square::spec_index`].
    pub board: Seq<Option<CorePiece>>,
    /// The pieces in hand, Black's then White's.
    pub hands: Seq<Hand>,
    /// Whose turn it is.
    pub side: Color,
    /// The move that led here.
    pub last_move: Option<PieceMove>,
}

impl View for BoardState {
    type V = PositionView;

    open spec fn view(&self) -> PositionView {
        PositionView { board: self.board@, hands: self.hands@, side: self.side, last_move: self.last_move }
    }
}

impl PositionView {
    /// What stands on `sq`.
    pub open spec fn piece_at(self, sq: Square) -> Option<CorePiece> {
        self.board[sq.spec_index()]
    }

    /// The hand of `c`.
    pub open spec fn hand(self, c: Color) -> Hand {
        self.hands[c.spec_index()]
    }
}

/// The position after `mv`, or `None` when the position cannot apply it.
///
/// A normal move needs a piece of the side to move on `from`, a promotable
/// piece if it promotes, and no piece of its own side on `to`; a piece it
/// captures goes to the mover's hand unpromoted (a king cannot be taken into a
/// hand, and the count wraps past 255). A drop needs a piece of the side to
/// move that is not promoted, an empty `to`, and one of that kind in hand.
pub open spec fn spec_make_move(p: PositionView, mv: PieceMove) -> Option<PositionView> {
    let side = p.side;
    match mv {
        PieceMove::Normal { from, to, promote } => {
            match p.piece_at(from) {
                None => None,
                Some(piece) => {
                    if piece.color != side {
                        None
                    } else if promote && !can_promote(piece.kind) {
                        None
                    } else {
                        let target = if promote {
                            CorePiece { kind: spec_promoted(piece.kind), color: piece.color }
                        } else {
                            piece
                        };
                        let hands = match p.piece_at(to) {
                            None => Some(p.hands),
                            Some(enemy) => {
                                if enemy.color == piece.color {
                                    None
                                } else {
                                    match p.hand(side).spec_slot(spec_unpromoted(enemy.kind)) {
                                        None => None,
                                        Some(n) => Some(p.hands.update(
                                            side.spec_index(),
                                            p.hand(side).spec_with(spec_unpromoted(enemy.kind), ((n + 1) % 256) as u8),
                                        )),
                                    }
                                }
                            },
                        };
                        match hands {
                            None => None,
                            Some(hands) => Some(PositionView {
                                board: p.board.update(from.spec_index(), None).update(to.spec_index(), Some(target)),
                                hands,
                                side: side.spec_flip(),
                                last_move: Some(mv),
                            }),
                        }
                    }
                },
            }
        },
        PieceMove::Drop { piece, to } => {
            if piece.color != side || is_promoted(piece.kind) || p.piece_at(to).is_some() {
                None
            } else {
                match p.hand(side).spec_slot(piece.kind) {
                    None => None,
                    Some(n) => {
                        if n == 0 {
                            None
                        } else {
                            Some(PositionView {
                                board: p.board.update(to.spec_index(), Some(piece)),
                                hands: p.hands.update(side.spec_index(), p.hand(side).spec_with(piece.kind, (n - 1) as u8)),
                                side: side.spec_flip(),
                                last_move: Some(mv),
                            })
                        }
                    },
                }
            }
        },
    }
}

impl BoardState {
    /// An empty board, empty hands, Black to move.
    pub fn empty() -> (p: BoardState)
        ensures
            forall|i: int| 0 <= i < 81 ==> p@.board[i] is None,
            p@.hands == seq![Hand::spec_empty(), Hand::spec_empty()],
            p.side == Color::Black,
            p.last_move is None,
    {
        let p = BoardState {
            board: [None; 81],
            hands: [Hand::empty(), Hand::empty()],
            side: Color::Black,
            last_move: None,
        };
        assert(p@.hands =~= seq![Hand::spec_empty(), Hand::spec_empty()]);
        p
    }

    /// What stands on `sq`.
    pub fn piece_at(&self, sq: Square) -> (r: Option<CorePiece>)
        ensures
            r == self@.piece_at(sq),
    {
        self.board[sq.index()]
    }

    /// Puts `piece` (or nothing) on `sq`.
    pub fn piece_set(&mut self, sq: Square, piece: Option<CorePiece>)
        ensures
            final(self)@ == (PositionView { board: old(self)@.board.update(sq.spec_index(), piece), ..old(self)@ }),
    {
        let i = sq.index();
        self.board[i] = piece;
    }

    /// Whose turn it is.
    pub fn side_to_move(&self) -> (c: Color)
        ensures
            c == self.side,
    {
        self.side
    }

    /// The move that led here.
    pub fn last_move(&self) -> (m: Option<PieceMove>)
        ensures
            m == self.last_move,
    {
        self.last_move
    }

    /// Applies `mv`. `None`, with the position unchanged, when it cannot be
    /// applied (see [`spec_make_move`]).
    pub fn make_move(&mut self, mv: PieceMove) -> (r: Option<()>)
        ensures
            r is Some <==> spec_make_move(old(self)@, mv) is Some,
            r is Some ==> final(self)@ == spec_make_move(old(self)@, mv).unwrap(),
            r is None ==> *final(self) == *old(self),
    {
        let side = self.side;
        match mv {
            PieceMove::Normal { from, to, promote } => {
                let piece = match self.piece_at(from) {
                    Some(piece) => piece,
                    None => return None,
                };
                if piece.color != side {
                    return None;
                }
                let target = if promote {
                    let k = piece.kind.promoted();
                    if k == piece.kind {
                        return None;
                    }
                    CorePiece { kind: k, color: piece.color }
                } else {
                    piece
                };
                if let Some(enemy) = self.piece_at(to) {
                    if enemy.color == piece.color {
                        return None;
                    }
                    let obtained = enemy.kind.unpromoted();
                    let idx = side.index();
                    let mut hand = self.hands[idx];
                    match hand.slot(obtained) {
                        None => return None,
                        Some(n) => {
                            let m: u8 = if n == 255 { 0 } else { n + 1 };
                            set_count(&mut hand, obtained, m);
                        },
                    }
                    self.hands[idx] = hand;
                }
                self.piece_set(from, None);
                self.piece_set(to, Some(target));
            },
            PieceMove::Drop { piece, to } => {
                if piece.color != side {
                    return None;
                }
                if piece.kind.unpromoted() != piece.kind {
                    return None;
                }
                if self.piece_at(to).is_some() {
                    return None;
                }
                let idx = side.index();
                let mut hand = self.hands[idx];
                match hand.slot(piece.kind) {
                    None => return None,
                    Some(n) => {
                        if n == 0 {
                            return None;
                        }
                        set_count(&mut hand, piece.kind, n - 1);
                    },
                }
                self.hands[idx] = hand;
                self.piece_set(to, Some(piece));
            },
        }
        self.last_move = Some(mv);
        self.side = side.flip();
        assert(self@.hands =~= spec_make_move(old(self)@, mv).unwrap().hands);
        assert(self@.board =~= spec_make_move(old(self)@, mv).unwrap().board);
        Some(())
    }
}

fn set_count(h: &mut Hand, kind: Kind, n: u8)
    ensures
        *final(h) == old(h).spec_with(kind, n),
{
    match kind {
        Kind::FU => h.FU = n,
        Kind::KY => h.KY = n,
        Kind::KE => h.KE = n,
        Kind::GI => h.GI = n,
        Kind::KI => h.KI = n,
        Kind::KA => h.KA = n,
        Kind::HI => h.HI = n,
        _ => {},
    }
}


/// What a square of a board diagram holds, as a position holds it: a piece
/// only when both its kind and its owner are given.
pub open spec fn cell(p: Piece) -> Option<CorePiece> {
    match (p.kind, p.color) {
        (Some(kind), Some(color)) => Some(CorePiece { kind, color }),
        _ => None,
    }
}

/// The flat board of a diagram indexed `[file - 1][rank - 1]`.
pub open spec fn flat_board(b: [[Piece; 9]; 9]) -> Seq<Option<CorePiece>> {
    Seq::new(81, |i: int| cell(b@[i / 9]@[i % 9]))
}

/// The flat board of the pieces `f` places on `(file, rank)`.
pub open spec fn flat_board_of(f: spec_fn(int, int) -> Piece) -> Seq<Option<CorePiece>> {
    Seq::new(81, |i: int| cell(f(i / 9 + 1, i % 9 + 1)))
}

/// The starting position of the even game.
pub open spec fn spec_startpos() -> PositionView {
    PositionView {
        board: flat_board_of(|f: int, r: int| hirate_piece(f, r)),
        hands: seq![Hand::spec_empty(), Hand::spec_empty()],
        side: Color::Black,
        last_move: None,
    }
}

/// The position a record's `initial` starts from.
///
/// The even game is the usual starting position; a handicap is that position
/// without the upper hand's pieces, with White to move; `その他` is the board,
/// hands and side to move the data states, and has to carry data.
pub open spec fn spec_initial_position(initial: Initial) -> Result<PositionView, ConvertError> {
    match initial.preset {
        Preset::PresetHirate => Ok(spec_startpos()),
        Preset::PresetOther => match initial.data {
            None => Err(ConvertError::InitialBoardNoDataWithPresetOTHER),
            Some(data) => Ok(PositionView {
                board: flat_board(data.board),
                hands: data.hands@,
                side: data.color,
                last_move: None,
            }),
        },
        preset => Ok(PositionView {
            board: flat_board_of(|f: int, r: int| preset_piece(preset, f, r)),
            hands: seq![Hand::spec_empty(), Hand::spec_empty()],
            side: spec_side_to_move(preset),
            last_move: None,
        }),
    }
}

/// What a square of a board diagram holds, as a position holds it.
pub fn cell_of(p: Piece) -> (c: Option<CorePiece>)
    ensures
        c == cell(p),
{
    match (p.kind, p.color) {
        (Some(kind), Some(color)) => Some(CorePiece { kind, color }),
        _ => None,
    }
}

fn flatten(b: &[[Piece; 9]; 9]) -> (r: [Option<CorePiece>; 81])
    ensures
        r@ == flat_board(*b),
{
    let mut r: [Option<CorePiece>; 81] = [None; 81];
    let mut i: usize = 0;
    while i < 81
        invariant
            i <= 81,
            r@.len() == 81,
            forall|k: int| 0 <= k < i ==> #[trigger] r@[k] == cell(b@[k / 9]@[k % 9]),
        decreases 81 - i,
    {
        r[i] = cell_of(b[i / 9][i % 9]);
        i = i + 1;
    }
    assert(r@ =~= flat_board(*b));
    r
}

pub proof fn lemma_flat_board_of(b: [[Piece; 9]; 9], f: spec_fn(int, int) -> Piece)
    requires
        board_is(b, f),
    ensures
        flat_board(b) == flat_board_of(f),
{
    assert forall|i: int| 0 <= i < 81 implies #[trigger] flat_board(b)[i] == flat_board_of(f)[i] by {
        assert(b@[i / 9]@[i % 9] == f(i / 9 + 1, i % 9 + 1));
    }
    assert(flat_board(b) =~= flat_board_of(f));
}

impl BoardState {
    /// The starting position of the even game.
    pub fn startpos() -> (p: BoardState)
        ensures
            p@ == spec_startpos(),
    {
        let b = hirate_board();
        proof { lemma_flat_board_of(b, |f: int, r: int| hirate_piece(f, r)); }
        let p = BoardState {
            board: flatten(&b),
            hands: [Hand::empty(), Hand::empty()],
            side: Color::Black,
            last_move: None,
        };
        assert(p@.hands =~= seq![Hand::spec_empty(), Hand::spec_empty()]);
        p
    }

    /// The position a record's `initial` starts from (see
    /// [`spec_initial_position`]).
    pub fn from_initial(initial: &Initial) -> (r: Result<BoardState, ConvertError>)
        ensures
            match r {
                Ok(p) => spec_initial_position(*initial) == Ok::<PositionView, ConvertError>(p@),
                Err(e) => spec_initial_position(*initial) == Err::<PositionView, ConvertError>(e),
            },
    {
        match initial.preset {
            Preset::PresetHirate => Ok(BoardState::startpos()),
            Preset::PresetOther => match &initial.data {
                None => Err(ConvertError::InitialBoardNoDataWithPresetOTHER),
                Some(data) => {
                    let p = BoardState {
                        board: flatten(&data.board),
                        hands: data.hands,
                        side: data.color,
                        last_move: None,
                    };
                    Ok(p)
                },
            },
            _ => {
                let b = match crate::handicap::board(initial.preset) {
                    Some(b) => b,
                    None => return Err(ConvertError::InitialBoardNoDataWithPresetOTHER),
                };
                let ghost preset = initial.preset;
                proof { lemma_flat_board_of(b, |f: int, r: int| preset_piece(preset, f, r)); }
                let p = BoardState {
                    board: flatten(&b),
                    hands: [Hand::empty(), Hand::empty()],
                    side: crate::handicap::side_to_move(initial.preset),
                    last_move: None,
                };
                assert(p@.hands =~= seq![Hand::spec_empty(), Hand::spec_empty()]);
                Ok(p)
            },
        }
    }
}

/// The place a record gives a square.
pub open spec fn place(sq: Square) -> PlaceFormat {
    PlaceFormat { x: sq.spec_file(), y: sq.spec_rank() }
}

/// The square a record's place names, or `InvalidSquare` when it is off the
/// board.
pub open spec fn spec_square_of(pf: PlaceFormat) -> Result<Square, ConvertError> {
    if 1 <= pf.x <= 9 && 1 <= pf.y <= 9 {
        Ok(Square::spec_new(pf.x, pf.y))
    } else {
        Err(ConvertError::InvalidSquare((pf.x, pf.y)))
    }
}

/// The square a record's place names.
pub fn square_of(pf: &PlaceFormat) -> (r: Result<Square, ConvertError>)
    ensures
        r == spec_square_of(*pf),
{
    match Square::new(pf.x, pf.y) {
        Some(sq) => Ok(sq),
        None => Err(ConvertError::InvalidSquare((pf.x, pf.y))),
    }
}

/// The place a record gives a square; reading it back gives the square.
pub fn place_of(sq: Square) -> (p: PlaceFormat)
    ensures
        p == place(sq),
        spec_square_of(p) == Ok::<Square, ConvertError>(sq),
        1 <= p.x <= 9,
        1 <= p.y <= 9,
{
    proof { use_type_invariant(&sq); }
    PlaceFormat { x: sq.file, y: sq.rank }
}

/// The move a record's move stands for: a move with an origin moves that
/// piece (promoting when `promote` says so), a move without one is a drop of
/// `piece` by `color`. The origin is checked before the destination.
pub open spec fn spec_move_of(mmf: MoveMoveFormat) -> Result<PieceMove, ConvertError> {
    match mmf.from {
        Some(from) => match spec_square_of(from) {
            Err(e) => Err(e),
            Ok(f) => match spec_square_of(mmf.to) {
                Err(e) => Err(e),
                Ok(t) => Ok(PieceMove::Normal { from: f, to: t, promote: mmf.promote == Some(true) }),
            },
        },
        None => match spec_square_of(mmf.to) {
            Err(e) => Err(e),
            Ok(t) => Ok(PieceMove::Drop { piece: CorePiece { kind: mmf.piece, color: mmf.color }, to: t }),
        },
    }
}

/// The move a record's move stands for.
pub fn move_of(mmf: &MoveMoveFormat) -> (r: Result<PieceMove, ConvertError>)
    ensures
        r == spec_move_of(*mmf),
{
    match &mmf.from {
        Some(from) => {
            let from = square_of(from)?;
            let to = square_of(&mmf.to)?;
            let promote = match mmf.promote {
                Some(b) => b,
                None => false,
            };
            Ok(PieceMove::Normal { from, to, promote })
        },
        None => {
            let to = square_of(&mmf.to)?;
            Ok(PieceMove::Drop { piece: CorePiece { kind: mmf.piece, color: mmf.color }, to })
        },
    }
}

} // verus!
