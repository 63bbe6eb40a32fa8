//! Writers: a record spelled as CSA, KIF, KI2 or USI.
//!
//! Each writer appends to a `String`. What it writes is stated as a pair: the
//! text it writes and the error it stops on, if any. A writer that stops keeps
//! what it wrote before the error.

pub mod csa;
pub mod kakinoki;
pub mod kif;
pub mod ki2;


use vstd::prelude::*;
use crate::error::ConvertError;
use crate::jkf::{JsonKifuFormat, MoveFormat};
use crate::engine::{sfen, to_sfen};
use crate::error::NormalizeError;
use crate::error::NormalizeErrorKind;
use crate::normalizer::start_of;
use crate::position::{BoardState, PieceMove, PositionView, move_of, spec_make_move, spec_move_of, spec_startpos};
use crate::usi::{push_move_usi, spec_move_usi};

verus! {

/// Text written without an error.
pub open spec fn ok(t: Seq<char>) -> (Seq<char>, Option<ConvertError>) {
    (t, None)
}

/// Nothing written, and the error.
pub open spec fn fail(e: ConvertError) -> (Seq<char>, Option<ConvertError>) {
    (Seq::empty(), Some(e))
}

/// `a`, then `b` unless `a` stopped on an error.
pub open spec fn then(a: (Seq<char>, Option<ConvertError>), b: (Seq<char>, Option<ConvertError>)) -> (Seq<char>, Option<ConvertError>) {
    if a.1 is Some {
        a
    } else {
        (a.0 + b.0, b.1)
    }
}

/// What a writer returns for what it wrote.
pub open spec fn outcome(w: (Seq<char>, Option<ConvertError>)) -> Result<(), ConvertError> {
    match w.1 {
        None => Ok(()),
        Some(e) => Err(e),
    }
}

/// The text of a finished write, or the error it stopped on.
pub open spec fn finished(w: (Seq<char>, Option<ConvertError>)) -> Result<Seq<char>, ConvertError> {
    match w.1 {
        None => Ok(w.0),
        Some(e) => Err(e),
    }
}

/// The moves after the starting position's slot.
pub open spec fn plies(moves: Seq<MoveFormat>) -> Seq<MoveFormat> {
    if moves.len() == 0 {
        moves
    } else {
        moves.drop_first()
    }
}

/// The value a header entry has: the last entry with that key.
pub open spec fn header_get(h: Seq<(String, String)>, key: Seq<char>) -> Option<Seq<char>>
    decreases h.len(),
{
    if h.len() == 0 {
        None
    } else if h.last().0@ == key {
        Some(h.last().1@)
    } else {
        header_get(h.drop_last(), key)
    }
}

/// The value a header entry has (see [`header_get`]).
pub fn header_value<'a>(h: &'a Vec<(String, String)>, key: &str) -> (r: Option<&'a String>)
    ensures
        match r {
            Some(v) => header_get(h@, key@) == Some(v@),
            None => header_get(h@, key@) is None,
        },
{
    let mut i = h.len();
    assert(h@.take(i as int) =~= h@);
    while i > 0
        invariant
            i <= h@.len(),
            header_get(h@, key@) == header_get(h@.take(i as int), key@),
        decreases i,
    {
        assert(h@.take(i as int).drop_last() =~= h@.take(i - 1));
        assert(h@.take(i as int).last() == h@[i - 1]);
        if crate::text::str_eq(h[i - 1].0.as_str(), key) {
            return Some(&h[i - 1].1);
        }
        i = i - 1;
    }
    None
}

/// The slots of a `then` sequence compose one after another.
pub proof fn lemma_then_assoc(a: (Seq<char>, Option<ConvertError>), b: (Seq<char>, Option<ConvertError>), c: (Seq<char>, Option<ConvertError>))
    ensures
        then(then(a, b), c) == then(a, then(b, c)),
{
    if a.1 is None && b.1 is None {
        assert(a.0 + b.0 + c.0 =~= a.0 + (b.0 + c.0));
    }
    if a.1 is None && b.1 is Some {
    }
}


/// The pieces of a write, one after another, up to the first that stops on
/// an error.
pub open spec fn then_all(ws: Seq<(Seq<char>, Option<ConvertError>)>) -> (Seq<char>, Option<ConvertError>)
    decreases ws.len(),
{
    if ws.len() == 0 {
        ok(Seq::empty())
    } else {
        then(then_all(ws.drop_last()), ws.last())
    }
}

/// One more piece of a write.
pub proof fn lemma_then_all_step(ws: Seq<(Seq<char>, Option<ConvertError>)>, k: int)
    requires
        0 <= k < ws.len(),
    ensures
        then_all(ws.take(k + 1)) == then(then_all(ws.take(k)), ws[k]),
{
    assert(ws.take(k + 1).drop_last() =~= ws.take(k));
}

/// A write that has stopped on an error writes nothing more.
pub proof fn lemma_then_all_stop(ws: Seq<(Seq<char>, Option<ConvertError>)>, k: int)
    requires
        0 <= k <= ws.len(),
        then_all(ws.take(k)).1 is Some,
    ensures
        then_all(ws) == then_all(ws.take(k)),
    decreases ws.len() - k,
{
    if k < ws.len() {
        lemma_then_all_step(ws, k);
        lemma_then_all_stop(ws, k + 1);
    } else {
        assert(ws.take(k) =~= ws);
    }
}

/// A write with nothing left to add.
pub proof fn lemma_then_all_whole(ws: Seq<(Seq<char>, Option<ConvertError>)>)
    ensures
        then_all(ws.take(ws.len() as int)) == then_all(ws),
{
    assert(ws.take(ws.len() as int) =~= ws);
}

/// The moves of a record replayed from `pos`, node `i` being ply `i`: every
/// node with a move is played, in order. A place off the board, or a move the
/// position cannot apply, is an error naming its ply.
pub open spec fn replay(moves: Seq<MoveFormat>, pos: PositionView, k: int) -> Result<(Seq<PieceMove>, PositionView), ConvertError>
    decreases k,
{
    if k <= 0 {
        Ok((Seq::empty(), pos))
    } else {
        match replay(moves, pos, k - 1) {
            Err(e) => Err(e),
            Ok((played, p)) => match moves[k - 1].move_ {
                None => Ok((played, p)),
                Some(m) => match spec_move_of(m) {
                    Err(e) => Err(e),
                    Ok(mv) => match spec_make_move(p, mv) {
                        None => Err(ConvertError::Normalize(Box::new(NormalizeError {
                            ply: (k - 1) as usize,
                            kind: NormalizeErrorKind::MakeMoveFailed(mv),
                        }))),
                        Some(q) => Ok((played.push(mv), q)),
                    },
                },
            },
        }
    }
}

/// The moves in USI, each after a space.
pub open spec fn usi_moves(played: Seq<PieceMove>) -> Seq<char>
    decreases played.len(),
{
    if played.len() == 0 {
        Seq::empty()
    } else {
        usi_moves(played.drop_last()) + " "@ + spec_move_usi(played.last())
    }
}

/// A record in USI: `startpos` for the even game's start and `sfen` with the
/// position otherwise, then ` moves` and the moves when any were played.
pub open spec fn spec_usi(j: JsonKifuFormat) -> Result<Seq<char>, ConvertError> {
    match start_of(j.initial) {
        Err(e) => Err(e),
        Ok(start) => match replay(j.moves@, start, j.moves@.len() as int) {
            Err(e) => Err(e),
            Ok((played, _)) => Ok(
                (if start == spec_startpos() { "startpos"@ } else { "sfen "@ + sfen(start) })
                    + (if played.len() > 0 { " moves"@ + usi_moves(played) } else { Seq::empty() })),
        },
    }
}

fn is_startpos(p: &BoardState) -> (b: bool)
    ensures
        b == (p@ == spec_startpos()),
{
    let s = BoardState::startpos();
    if p.side != s.side || p.last_move.is_some() || p.hands[0] != s.hands[0] || p.hands[1] != s.hands[1] {
        return false;
    }
    let mut i: usize = 0;
    while i < 81
        invariant
            i <= 81,
            s@ == spec_startpos(),
            forall|k: int| 0 <= k < i ==> p@.board[k] == s@.board[k],
        decreases 81 - i,
    {
        if p.board[i] != s.board[i] {
            return false;
        }
        i = i + 1;
    }
    assert(p@.board =~= s@.board);
    assert(p@.hands =~= s@.hands);
    true
}

/// A record replayed: where it starts, the moves played from there, and where
/// they lead.
pub struct Replay {
    /// The starting position.
    pub initial: BoardState,
    /// The moves, in order.
    pub moves: Vec<PieceMove>,
    /// The position after the last of them.
    pub current: BoardState,
}

impl JsonKifuFormat {
    /// The record replayed from its starting position (see [`replay`]): every
    /// node with a move is played in order.
    pub fn to_position(&self) -> (r: Result<Replay, ConvertError>)
        ensures
            match r {
                Ok(rp) => start_of(self.initial) == Ok::<PositionView, ConvertError>(rp.initial@)
                    && replay(self.moves@, rp.initial@, self.moves@.len() as int)
                        == Ok::<(Seq<PieceMove>, PositionView), ConvertError>((rp.moves@, rp.current@)),
                Err(e) => match start_of(self.initial) {
                    Err(e0) => e == e0,
                    Ok(start) => replay(self.moves@, start, self.moves@.len() as int) == Err::<(Seq<PieceMove>, PositionView), ConvertError>(e),
                },
            },
    {
        let start = match &self.initial {
            Some(i) => BoardState::from_initial(i)?,
            None => BoardState::startpos(),
        };
        let mut p = start;
        let mut played: Vec<PieceMove> = Vec::new();
        let mut i: usize = 0;
        while i < self.moves.len()
            invariant
                i <= self.moves@.len(),
                start_of(self.initial) == Ok::<PositionView, ConvertError>(start@),
                replay(self.moves@, start@, i as int) == Ok::<(Seq<PieceMove>, PositionView), ConvertError>((played@, p@)),
            decreases self.moves@.len() - i,
        {
            if let Some(m) = &self.moves[i].move_ {
                let mv = match move_of(m) {
                    Ok(mv) => mv,
                    Err(e) => {
                        proof { lemma_replay_stop(self.moves@, start@, i + 1, self.moves@.len() as int); }
                        return Err(e);
                    },
                };
                if p.make_move(mv).is_none() {
                    proof { lemma_replay_stop(self.moves@, start@, i + 1, self.moves@.len() as int); }
                    return Err(ConvertError::Normalize(Box::new(NormalizeError::at(i, NormalizeErrorKind::MakeMoveFailed(mv)))));
                }
                played.push(mv);
            }
            i = i + 1;
        }
        Ok(Replay { initial: start, moves: played, current: p })
    }

    /// The record in USI, or why it cannot be replayed: a starting position
    /// that cannot be built, a place off the board, or a move the position
    /// cannot apply (see [`spec_usi`]).
    pub fn try_to_usi_owned(&self) -> (r: Result<String, ConvertError>)
        ensures
            match r {
                Ok(s) => spec_usi(*self) == Ok::<Seq<char>, ConvertError>(s@),
                Err(e) => spec_usi(*self) == Err::<Seq<char>, ConvertError>(e),
            },
    {
        let rp = self.to_position()?;
        let start = rp.initial;
        let played = rp.moves;
        let mut s = String::new();
        if is_startpos(&start) {
            s.append("startpos");
        } else {
            s.append("sfen ");
            let t = to_sfen(&start);
            s.append(t.as_str());
        }
        let ghost opening = s@;
        assert(opening == (if start@ == spec_startpos() { "startpos"@ } else { "sfen "@ + sfen(start@) }));
        if played.len() > 0 {
            s.append(" moves");
            let ghost head = s@;
            let mut k: usize = 0;
            while k < played.len()
                invariant
                    k <= played@.len(),
                    s@ == head + usi_moves(played@.take(k as int)),
                decreases played@.len() - k,
            {
                s.append(" ");
                push_move_usi(&mut s, played[k]);
                assert(played@.take(k + 1).drop_last() =~= played@.take(k as int));
                assert(s@ =~= head + usi_moves(played@.take(k + 1)));
                k = k + 1;
            }
            assert(played@.take(played@.len() as int) =~= played@);
            assert(s@ =~= opening + (" moves"@ + usi_moves(played@)));
        } else {
            assert(s@ =~= opening + Seq::<char>::empty());
        }
        Ok(s)
    }

    /// The record in USI, or an empty string when it cannot be replayed.
    pub fn to_usi_owned(&self) -> (s: String)
        ensures
            match spec_usi(*self) {
                Ok(t) => s@ == t,
                Err(_) => s@ == Seq::<char>::empty(),
            },
    {
        match self.try_to_usi_owned() {
            Ok(s) => s,
            Err(_) => String::new(),
        }
    }
}

proof fn lemma_replay_stop(moves: Seq<MoveFormat>, pos: PositionView, k: int, j: int)
    requires
        0 <= k <= j,
        replay(moves, pos, k) is Err,
    ensures
        replay(moves, pos, j) == replay(moves, pos, k),
    decreases j - k,
{
    if j > k {
        lemma_replay_stop(moves, pos, k, j - 1);
    }
}
} // verus!
