//! Readers: turning text into a record.
//!
//! The bytes of a file are decoded as UTF-8 or Shift-JIS, whichever decodes
//! them cleanly; a byte-order mark is not part of the text. CSA text is read
//! with the `csa` crate, and the record it reads is turned into a JKF here.

use vstd::prelude::*;
use crate::error::ParseError;
use crate::jkf::JsonKifuFormat;
use crate::parser::header_block::{LineFault, Refusal};
use crate::text::decimal;
use crate::normalizer::normalized_with;
use crate::parser::header_block::spec_parse_without_moves;
use crate::parser::kakinoki::LineShapes;
use crate::parser::tree::{lines_are, record_read, tree_is, with_header_comments, NodeT};
use crate::parser::header_block::HeaderView;


pub mod csa_text;
pub mod kakinoki;
pub mod header_block;
pub mod kif;
pub mod ki2;
pub mod tree;

pub use csa_text::parse_csa_str;

verus! {

/// The two encodings a kifu is written in.
#[derive(Clone, Copy, Debug, PartialEq, Eq, Structural)]
pub enum TextEncoding {
    /// UTF-8
    Utf8,
    /// Shift-JIS
    ShiftJis,
}

/// What `encoding_rs::Encoding::decode` makes of `bytes` in `enc`: the text,
/// and whether any sequence was malformed (and replaced).
pub uninterp spec fn decoding(enc: TextEncoding, bytes: Seq<u8>) -> (Seq<char>, bool);

/// Calls `encoding_rs::Encoding::decode` for `UTF_8` or `SHIFT_JIS`, which
/// removes a byte-order mark and replaces malformed sequences; the flag says
/// whether it had to.
#[verifier::external_body]
fn decode(enc: TextEncoding, bytes: &[u8]) -> (r: (String, bool))
    ensures
        (r.0@, r.1) == decoding(enc, bytes@),
{
    let encoding = match enc {
        TextEncoding::Utf8 => encoding_rs::UTF_8,
        TextEncoding::ShiftJis => encoding_rs::SHIFT_JIS,
    };
    let (text, _, had_errors) = encoding.decode(bytes);
    (text.into_owned(), had_errors)
}

/// The other of the two encodings.
pub open spec fn other_encoding(e: TextEncoding) -> TextEncoding {
    match e {
        TextEncoding::Utf8 => TextEncoding::ShiftJis,
        TextEncoding::ShiftJis => TextEncoding::Utf8,
    }
}

/// The text of `bytes` in the first of `first` and the other encoding that
/// decodes them cleanly, or `Decode` when neither does.
pub open spec fn spec_decode_kifu(bytes: Seq<u8>, first: TextEncoding) -> Result<Seq<char>, ParseError> {
    let (a, a_bad) = decoding(first, bytes);
    let (b, b_bad) = decoding(other_encoding(first), bytes);
    if !a_bad {
        Ok(a)
    } else if !b_bad {
        Ok(b)
    } else {
        Err(ParseError::Decode)
    }
}

/// Decodes `buf` as `first`, falling back to the other encoding (see
/// [`spec_decode_kifu`]). `first` only breaks the tie for bytes both accept.
pub fn decode_kifu(buf: &[u8], first: TextEncoding) -> (r: Result<String, ParseError>)
    ensures
        match r {
            Ok(s) => spec_decode_kifu(buf@, first) == Ok::<Seq<char>, ParseError>(s@),
            Err(e) => spec_decode_kifu(buf@, first) == Err::<Seq<char>, ParseError>(e),
        },
{
    let second = match first {
        TextEncoding::Utf8 => TextEncoding::ShiftJis,
        TextEncoding::ShiftJis => TextEncoding::Utf8,
    };
    let (text, had_errors) = decode(first, buf);
    if !had_errors {
        return Ok(text);
    }
    let (text, had_errors) = decode(second, buf);
    if !had_errors {
        return Ok(text);
    }
    Err(ParseError::Decode)
}

/// The text without a byte-order mark at its head.
pub open spec fn spec_without_bom(s: Seq<char>) -> Seq<char> {
    if s.len() > 0 && s[0] == '\u{feff}' {
        s.drop_first()
    } else {
        s
    }
}

/// Drops a byte-order mark from the head of a record: it is not part of the
/// text, and left on it joins the first line.
pub fn without_a_byte_order_mark(s: &str) -> (t: &str)
    ensures
        t@ == spec_without_bom(s@),
{
    let n = s.unicode_len();
    if n > 0 && s.get_char(0) == '\u{feff}' {
        s.substring_char(1, n)
    } else {
        s
    }
}

/// Whether a reader recognised nothing at all: no header was read, and no
/// node holds a move, an outcome or a comment.
pub open spec fn spec_recognised_nothing(jkf: JsonKifuFormat, read_header: bool) -> bool {
    !read_header && forall|i: int| 0 <= i < jkf.moves@.len() ==>
        (#[trigger] jkf.moves@[i]).move_ is None && jkf.moves@[i].special is None && jkf.moves@[i].comments is None
}

/// Whether no node of `ts` holds a move, an outcome or a comment.
pub open spec fn says_nothing(ts: Seq<NodeT>) -> bool {
    forall|k: int| 0 <= k < ts.len() ==>
        (#[trigger] ts[k]).node.move_ is None && ts[k].node.special is None && ts[k].comments.len() == 0
}

/// A record's nodes are the trees `ts`: it recognised nothing exactly when
/// no header line was read and the trees say nothing.
proof fn lemma_says_nothing(j: JsonKifuFormat, ts: Seq<NodeT>, h: bool)
    requires
        lines_are(j.moves@, ts),
    ensures
        spec_recognised_nothing(j, h) == (!h && says_nothing(ts)),
{
    assert forall|k: int| 0 <= k < ts.len() implies tree_is(#[trigger] j.moves@[k], ts[k]) by {}
    if !h && says_nothing(ts) {
        assert forall|k: int| 0 <= k < j.moves@.len() implies
            (#[trigger] j.moves@[k]).move_ is None && j.moves@[k].special is None && j.moves@[k].comments is None by {
            assert(tree_is(j.moves@[k], ts[k]));
        }
    }
    if spec_recognised_nothing(j, h) {
        assert forall|k: int| 0 <= k < ts.len() implies
            (#[trigger] ts[k]).node.move_ is None && ts[k].node.special is None && ts[k].comments.len() == 0 by {
            assert(tree_is(j.moves@[k], ts[k]));
            assert(j.moves@[k].comments is None);
        }
    }
}

/// What a reader answers for a text whose block above the moves is `v` and
/// whose move tree is `ts`, once the record is normalized with
/// `correct_color` and `infer_relative`: the record read (see
/// [`record_read`]) normalized, or the error normalizing it reports.
pub open spec fn read_and_normalized(v: HeaderView, ts: Seq<NodeT>, r: Result<JsonKifuFormat, ParseError>, correct_color: bool, infer_relative: bool) -> bool {
    match r {
        Ok(j) => exists|j0: JsonKifuFormat| #[trigger] record_read(j0, v, ts) && normalized_with(j0, j, Ok(()), correct_color, infer_relative),
        Err(ParseError::Normalize(e)) => exists|j0: JsonKifuFormat, j1: JsonKifuFormat|
            #[trigger] record_read(j0, v, ts) && #[trigger] normalized_with(j0, j1, Err(e), correct_color, infer_relative),
        Err(_) => false,
    }
}

/// Whether `r` is the KIF reader's error (the KI2 reader's, with `ki2`)
/// with the message `m`.
pub open spec fn reader_error(r: Result<JsonKifuFormat, ParseError>, ki2: bool, m: Seq<char>) -> bool {
    match r {
        Err(ParseError::Kif(x)) => !ki2 && x@ == m,
        Err(ParseError::Ki2(x)) => ki2 && x@ == m,
        _ => false,
    }
}

/// The record a reader read, normalized with `correct_color` and
/// `infer_relative` (see [`read_and_normalized`]).
fn normalized_reading(jkf: JsonKifuFormat, Ghost(v): Ghost<HeaderView>, Ghost(ts): Ghost<Seq<NodeT>>, correct_color: bool, infer_relative: bool) -> (r: Result<JsonKifuFormat, ParseError>)
    requires
        record_read(jkf, v, ts),
    ensures
        read_and_normalized(v, ts, r, correct_color, infer_relative),
{
    let ghost j0 = jkf;
    let mut jkf = jkf;
    match jkf.normalize_with_options(correct_color, infer_relative) {
        Ok(()) => {
            assert(normalized_with(j0, jkf, Ok(()), correct_color, infer_relative));
            Ok(jkf)
        },
        Err(e) => {
            assert(normalized_with(j0, jkf, Err(e), correct_color, infer_relative));
            Err(ParseError::Normalize(e))
        },
    }
}

/// What a reader answers for a text `t` it read: `stopped_message` where text
/// is left after the move list, and where the text is not blank but no
/// header line was read and no node holds anything; else the record read,
/// normalized.
pub open spec fn answered(t: Seq<char>, header_end: int, v: HeaderView, ts: Seq<NodeT>, e: int, r: Result<JsonKifuFormat, ParseError>, ki2: bool, correct_color: bool, infer_relative: bool) -> bool {
    if !kif::all_blank(t, e) {
        reader_error(r, ki2, stopped_message(t, e))
    } else if !kif::all_blank(t, 0) && header_end == 0 && says_nothing(with_header_comments(ts, v.info.comments)) {
        reader_error(r, ki2, stopped_message(t, 0))
    } else {
        read_and_normalized(v, ts, r, correct_color, infer_relative)
    }
}

/// Whether a reader recognised nothing at all (see
/// [`spec_recognised_nothing`]).
pub fn recognised_nothing(jkf: &JsonKifuFormat, read_header: bool) -> (b: bool)
    ensures
        b == spec_recognised_nothing(*jkf, read_header),
{
    if read_header {
        return false;
    }
    let mut i: usize = 0;
    while i < jkf.moves.len()
        invariant
            i <= jkf.moves@.len(),
            forall|k: int| 0 <= k < i ==>
                (#[trigger] jkf.moves@[k]).move_ is None && jkf.moves@[k].special is None && jkf.moves@[k].comments is None,
        decreases jkf.moves@.len() - i,
    {
        let n = &jkf.moves[i];
        if n.move_.is_some() || n.special.is_some() || n.comments.is_some() {
            return false;
        }
        i = i + 1;
    }
    true
}


/// What is wrong with a line, in words.
pub open spec fn fault_words(f: LineFault) -> Seq<char> {
    match f {
        LineFault::RunsIntoTheLineBelow => "the line runs into the line below it"@,
        LineFault::HandCannotBeRead => "the pieces in hand cannot be read"@,
        LineFault::Board(_) => "the board diagram is broken"@,
        LineFault::MoveCannotBeRead => "the move cannot be read"@,
        LineFault::EmptyBranch => "a 変化 block with no moves under it"@,
        LineFault::UnknownOutcome => "the outcome is not one the format has"@,
    }
}

/// Where the line that character `k` is on starts.
pub open spec fn line_start(s: Seq<char>, k: int) -> int
    decreases k,
{
    if 0 < k <= s.len() && s[k - 1] != '\n' { line_start(s, k - 1) } else { k }
}

/// How many `\n` stand before character `k`.
pub open spec fn newlines_before(s: Seq<char>, k: int) -> nat
    decreases k,
{
    if k <= 0 || k > s.len() {
        0
    } else {
        newlines_before(s, k - 1) + if s[k - 1] == '\n' { 1nat } else { 0nat }
    }
}

/// Where in `s` character `at` is: ` at line <n>: ` and the text of that
/// line, lines counted from 1.
/// A position past the end counts as the end.
pub open spec fn where_words(s: Seq<char>, at: int) -> Seq<char> {
    let a = if at > s.len() { s.len() as int } else { at };
    " at line "@ + decimal(newlines_before(s, a) + 1) + ": "@
        + s.subrange(line_start(s, a), crate::parser::kakinoki::line_stop(s, a))
}

fn push_wide_decimal(m: &mut String, n: u128)
    ensures
        final(m)@ == old(m)@ + decimal(n as nat),
    decreases n,
{
    if n >= 10 {
        push_wide_decimal(m, n / 10);
    }
    crate::text::push_char(m, crate::text::digit((n % 10) as u64));
    assert(m@ =~= old(m)@ + decimal(n as nat));
}

/// The message for a broken line of `s` that starts at character `at`.
pub open spec fn fault_message(s: Seq<char>, at: int, f: LineFault) -> Seq<char> {
    fault_words(f) + where_words(s, at)
}

/// The message for a text `s` a reader stopped in, at character `at`.
pub open spec fn stopped_message(s: Seq<char>, at: int) -> Seq<char> {
    "the reader stopped"@ + where_words(s, at)
}

fn fault_words_exec(f: LineFault) -> (w: &'static str)
    ensures
        w@ == fault_words(f),
{
    match f {
        LineFault::RunsIntoTheLineBelow => "the line runs into the line below it",
        LineFault::HandCannotBeRead => "the pieces in hand cannot be read",
        LineFault::Board(_) => "the board diagram is broken",
        LineFault::MoveCannotBeRead => "the move cannot be read",
        LineFault::EmptyBranch => "a 変化 block with no moves under it",
        LineFault::UnknownOutcome => "the outcome is not one the format has",
    }
}

fn push_where(m: &mut String, s: &Vec<char>, at0: usize)
    ensures
        final(m)@ == old(m)@ + where_words(s@, at0 as int),
{
    let at = if at0 > s.len() { s.len() } else { at0 };
    let mut count: u128 = 0;
    let mut k: usize = 0;
    while k < at
        invariant
            k <= at <= s@.len(),
            count == newlines_before(s@, k as int),
            count <= k,
        decreases at - k,
    {
        if s[k] == '\n' {
            count = count + 1;
        }
        k = k + 1;
    }
    let mut start = at;
    while start > 0 && s[start - 1] != '\n'
        invariant
            start <= at <= s@.len(),
            line_start(s@, at as int) == line_start(s@, start as int),
        decreases start,
    {
        start = start - 1;
    }
    let stop = crate::parser::kakinoki::line_stop_exec(s, at);
    m.append(" at line ");
    push_wide_decimal(m, count + 1);
    m.append(": ");
    let mut j = start;
    let ghost before = m@;
    while j < stop
        invariant
            start <= j <= stop <= s@.len(),
            m@ == before + s@.subrange(start as int, j as int),
        decreases stop - j,
    {
        crate::text::push_char(m, s[j]);
        j = j + 1;
        assert(m@ =~= before + s@.subrange(start as int, j as int));
    }
    assert(m@ =~= old(m)@ + where_words(s@, at0 as int));
}

/// The message for a broken line (see [`fault_message`]).
fn fault_message_exec(s: &Vec<char>, at: usize, f: LineFault) -> (m: String)
    ensures
        m@ == fault_message(s@, at as int, f),
{
    let mut m = String::new();
    m.append(fault_words_exec(f));
    push_where(&mut m, s, at);
    m
}

/// The message for a text a reader stopped in (see [`stopped_message`]).
fn stopped_message_exec(s: &Vec<char>, at: usize) -> (m: String)
    ensures
        m@ == stopped_message(s@, at as int),
{
    let mut m = String::new();
    m.append("the reader stopped");
    push_where(&mut m, s, at);
    m
}

/// Reads a KIF text: the block above the moves and the move list (see
/// [`kif::spec_kif_read`]), with nothing but blank space after it, then the
/// record read (its header, its start and its move tree, see
/// [`kif::kif_tree`]) normalized with each move's side taken from the
/// position and no `relative` inferred (see [`answered`]). A broken line,
/// text the reader stopped in, and a text in which nothing is a kifu are
/// errors.
#[verifier::rlimit(60)]
#[verifier::spinoff_prover]
pub fn parse_kif_str(s: &str) -> (r: Result<JsonKifuFormat, ParseError>)
    ensures
        match kif::spec_kif_read(spec_without_bom(s@)) {
            Err((at, f)) => r matches Err(ParseError::Kif(m)) && m@ == fault_message(spec_without_bom(s@), at, f),
            Ok((v, main, fs, e)) => answered(spec_without_bom(s@), spec_parse_without_moves(LineShapes::Kif, spec_without_bom(s@))->Ok_0.1,
                v, kif::kif_tree(main, fs), e, r, false, true, false),
        },
{
    let t = without_a_byte_order_mark(s);
    let v = csa_text::chars_of(t);
    let (jkf, read_header, e) = match kif::kif_read(&v) {
        Ok(x) => x,
        Err(Refusal::Broken(at, f)) => return Err(ParseError::Kif(fault_message_exec(&v, at, f))),
        Err(Refusal::NotThis) => return Err(ParseError::Kif(stopped_message_exec(&v, 0))),
    };
    let ghost rd = kif::spec_kif_read(v@)->Ok_0;
    let ghost ts = with_header_comments(kif::kif_tree(rd.1, rd.2), rd.0.info.comments);
    if !kif::all_blank_at(&v, e) {
        let m = stopped_message_exec(&v, e);
        return Err(ParseError::Kif(m));
    }
    proof { lemma_says_nothing(jkf, ts, read_header); }
    if !kif::all_blank_at(&v, 0) && recognised_nothing(&jkf, read_header) {
        let m = stopped_message_exec(&v, 0);
        proof {
            assert(spec_recognised_nothing(jkf, read_header));
            assert(says_nothing(ts));
            assert(!kif::all_blank(v@, 0));
            assert(reader_error(Err::<JsonKifuFormat, ParseError>(ParseError::Kif(m)), false, stopped_message(v@, 0)));
        }
        return Err(ParseError::Kif(m));
    }
    normalized_reading(jkf, Ghost(rd.0), Ghost(kif::kif_tree(rd.1, rd.2)), true, false)
}


/// Reads a KI2 text: the block above the moves and the move list (see
/// [`ki2::spec_ki2_read`]), with nothing but blank space after it, then the
/// record read (its header, its start and its move tree, see
/// [`ki2::ki2_tree`]) normalized with each move's side taken from the
/// position and `relative` inferred (see [`answered`]). A broken line, text
/// the reader stopped in, and a text in which nothing is a kifu are errors.
#[verifier::rlimit(60)]
#[verifier::spinoff_prover]
pub fn parse_ki2_str(s: &str) -> (r: Result<JsonKifuFormat, ParseError>)
    ensures
        match ki2::spec_ki2_read(spec_without_bom(s@)) {
            Err((at, f)) => r matches Err(ParseError::Ki2(m)) && m@ == fault_message(spec_without_bom(s@), at, f),
            Ok((v, main, bs, e)) => answered(spec_without_bom(s@), spec_parse_without_moves(LineShapes::Ki2, spec_without_bom(s@))->Ok_0.1,
                v, ki2::ki2_tree(main, bs), e, r, true, true, true),
        },
{
    let t = without_a_byte_order_mark(s);
    let v = csa_text::chars_of(t);
    let (jkf, read_header, e) = match ki2::ki2_read(&v) {
        Ok(x) => x,
        Err(Refusal::Broken(at, f)) => return Err(ParseError::Ki2(fault_message_exec(&v, at, f))),
        Err(Refusal::NotThis) => return Err(ParseError::Ki2(stopped_message_exec(&v, 0))),
    };
    let ghost rd = ki2::spec_ki2_read(v@)->Ok_0;
    let ghost ts = with_header_comments(ki2::ki2_tree(rd.1, rd.2), rd.0.info.comments);
    if !kif::all_blank_at(&v, e) {
        let m = stopped_message_exec(&v, e);
        return Err(ParseError::Ki2(m));
    }
    proof { lemma_says_nothing(jkf, ts, read_header); }
    if !kif::all_blank_at(&v, 0) && recognised_nothing(&jkf, read_header) {
        let m = stopped_message_exec(&v, 0);
        return Err(ParseError::Ki2(m));
    }
    normalized_reading(jkf, Ghost(rd.0), Ghost(ki2::ki2_tree(rd.1, rd.2)), true, true)
}

} // verus!
