//! The scanner: a single left-to-right pass over the bytes of a source
//! buffer that produces either the full token sequence, terminated by one
//! end-of-input token, or the aggregated list of every lexical error found.
//!
//! The pass is modelled by [`scan_from`]: [`scan_step`] says how one lexeme
//! (or one discarded byte) is consumed from a given position and line, and
//! `scan_from` chains steps until the end of the buffer, where the
//! end-of-input token is appended.  `Scanner::scan_tokens` is verified to
//! return exactly what this model says.

use vstd::prelude::*;
use vstd::slice::{slice_subrange, slice_to_vec};
use vstd::string::StringSliceAdditionalSpecFns;

use crate::numeric::{digits_val, is_digit, lemma_digits_val_nonneg, parse_i32_digits};
use crate::token::{keyword_token, try_as_keyword, SourceToken, SourceTokenV, Token, TokenV};
use crate::util::{errs_match, is_scan_err, CrustCoreErr, CrustCoreResult, ScanErrV};

verus! {

/// The byte may start an identifier or keyword: an ASCII letter or `_`.
pub open spec fn is_alpha(b: u8) -> bool {
    (65 <= b && b <= 90) || (97 <= b && b <= 122) || b == 95
}

/// The byte may continue an identifier: an ASCII letter, digit or `_`.
pub open spec fn is_ident_byte(b: u8) -> bool {
    is_alpha(b) || is_digit(b)
}

/// The byte classes whose maximal runs the scanner consumes.
pub enum ByteClass {
    Digit,
    Ident,
    NonQuote,
    NonNewline,
}

pub open spec fn in_class(b: u8, c: ByteClass) -> bool {
    match c {
        ByteClass::Digit => is_digit(b),
        ByteClass::Ident => is_ident_byte(b),
        ByteClass::NonQuote => b != 34,
        ByteClass::NonNewline => b != 10,
    }
}

/// The first position at or after `i` holding a byte outside the class, or
/// the end of the buffer.
pub open spec fn run_end(s: Seq<u8>, i: int, c: ByteClass) -> int
    decreases s.len() - i,
    when 0 <= i <= s.len()
{
    if i < s.len() && in_class(s[i], c) {
        run_end(s, i + 1, c)
    } else {
        i
    }
}

pub proof fn lemma_run_end(s: Seq<u8>, i: int, c: ByteClass)
    requires
        0 <= i <= s.len(),
    ensures
        i <= run_end(s, i, c) <= s.len(),
        forall|k: int| i <= k < run_end(s, i, c) ==> in_class(#[trigger] s[k], c),
        run_end(s, i, c) < s.len() ==> !in_class(s[run_end(s, i, c)], c),
    decreases s.len() - i,
{
    if i < s.len() && in_class(s[i], c) {
        lemma_run_end(s, i + 1, c);
    }
}

/// The run end is the one position `j` with only class bytes before it and a
/// non-class byte (or the buffer end) at it.
pub proof fn lemma_run_end_is(s: Seq<u8>, i: int, j: int, c: ByteClass)
    requires
        0 <= i <= j <= s.len(),
        forall|k: int| i <= k < j ==> in_class(#[trigger] s[k], c),
        j < s.len() ==> !in_class(s[j], c),
    ensures
        run_end(s, i, c) == j,
    decreases j - i,
{
    if i < j {
        lemma_run_end_is(s, i + 1, j, c);
    }
}

/// How many newline bytes lie in `[i, j)`.
pub open spec fn newlines_in(s: Seq<u8>, i: int, j: int) -> int
    decreases j - i,
    when i <= j
{
    if i < j {
        newlines_in(s, i, j - 1) + if s[j - 1] == 10 {
            1int
        } else {
            0int
        }
    } else {
        0
    }
}

pub proof fn lemma_newlines_in_bound(s: Seq<u8>, i: int, j: int)
    requires
        i <= j,
    ensures
        0 <= newlines_in(s, i, j) <= j - i,
    decreases j - i,
{
    if i < j {
        lemma_newlines_in_bound(s, i, j - 1);
    }
}

/// What one scanning step does: where the cursor and the line counter move,
/// and which token or error, if any, the step records.
pub struct ScanStep {
    pub pos: int,
    pub line: int,
    pub tok: Option<SourceTokenV>,
    pub err: Option<ScanErrV>,
}

pub open spec fn opt_seq<A>(o: Option<A>) -> Seq<A> {
    match o {
        Some(a) => seq![a],
        None => Seq::empty(),
    }
}

/// A step that only emits a token spanning `[pos, end)` on `line`.
pub open spec fn token_step(t: TokenV, pos: int, end: int, line: int) -> ScanStep {
    ScanStep {
        pos: end,
        line,
        tok: Some(SourceTokenV { token: t, offset: pos, line, length: end - pos }),
        err: None,
    }
}

/// One step of the scan at position `pos` (which must lie inside the buffer)
/// on line `line`: consumes one lexeme, one run of discarded bytes, or one
/// unrecognized byte.
pub open spec fn scan_step(s: Seq<u8>, pos: int, line: int) -> ScanStep {
    let b = s[pos];
    if b == 40 {  // (
        token_step(TokenV::LeftParen, pos, pos + 1, line)
    } else if b == 41 {  // )
        token_step(TokenV::RightParen, pos, pos + 1, line)
    } else if b == 123 {  // {
        token_step(TokenV::LeftBrace, pos, pos + 1, line)
    } else if b == 125 {  // }
        token_step(TokenV::RightBrace, pos, pos + 1, line)
    } else if b == 44 {  // ,
        token_step(TokenV::Comma, pos, pos + 1, line)
    } else if b == 46 {  // .
        token_step(TokenV::Dot, pos, pos + 1, line)
    } else if b == 45 {  // -
        token_step(TokenV::Minus, pos, pos + 1, line)
    } else if b == 43 {  // +
        token_step(TokenV::Plus, pos, pos + 1, line)
    } else if b == 59 {  // ;
        token_step(TokenV::Semicolon, pos, pos + 1, line)
    } else if b == 42 {  // *
        token_step(TokenV::Star, pos, pos + 1, line)
    } else if b == 33 {  // !
        if pos + 1 < s.len() && s[pos + 1] == 61 {
            token_step(TokenV::BangEqual, pos, pos + 2, line)
        } else {
            token_step(TokenV::Bang, pos, pos + 1, line)
        }
    } else if b == 61 {  // =
        if pos + 1 < s.len() && s[pos + 1] == 61 {
            token_step(TokenV::EqualEqual, pos, pos + 2, line)
        } else {
            token_step(TokenV::Equal, pos, pos + 1, line)
        }
    } else if b == 60 {  // <
        if pos + 1 < s.len() && s[pos + 1] == 61 {
            token_step(TokenV::LessEqual, pos, pos + 2, line)
        } else {
            token_step(TokenV::Less, pos, pos + 1, line)
        }
    } else if b == 62 {  // >
        if pos + 1 < s.len() && s[pos + 1] == 61 {
            token_step(TokenV::GreaterEqual, pos, pos + 2, line)
        } else {
            token_step(TokenV::Greater, pos, pos + 1, line)
        }
    } else if b == 47 {  // /
        if pos + 1 < s.len() && s[pos + 1] == 47 {
            // a line comment: discarded up to, but not including, the newline
            ScanStep { pos: run_end(s, pos + 2, ByteClass::NonNewline), line, tok: None, err: None }
        } else {
            token_step(TokenV::Slash, pos, pos + 1, line)
        }
    } else if is_digit(b) {
        scan_number_step(s, pos, line)
    } else if is_alpha(b) {
        scan_ident_step(s, pos, line)
    } else if b == 32 || b == 9 || b == 13 {  // space, tab, carriage return
        ScanStep { pos: pos + 1, line, tok: None, err: None }
    } else if b == 10 {  // newline
        ScanStep { pos: pos + 1, line: line + 1, tok: None, err: None }
    } else if b == 34 {  // double quote
        scan_string_step(s, pos, line)
    } else {
        ScanStep {
            pos: pos + 1,
            line,
            tok: None,
            err: Some(ScanErrV { line, message: "Unexpected character"@ }),
        }
    }
}

/// A number literal starting at `pos`: a maximal digit run, extended by a
/// fractional part only when the `.` is itself followed by a digit.  A digit
/// run whose value does not fit a 32-bit signed integer is an error.
pub open spec fn scan_number_step(s: Seq<u8>, pos: int, line: int) -> ScanStep {
    let d1 = run_end(s, pos + 1, ByteClass::Digit);
    if d1 < s.len() && s[d1] == 46 && d1 + 1 < s.len() && is_digit(s[d1 + 1]) {
        let end = run_end(s, d1 + 1, ByteClass::Digit);
        token_step(TokenV::Float(s.subrange(pos, end)), pos, end, line)
    } else {
        let lex = s.subrange(pos, d1);
        if digits_val(lex) <= i32::MAX as int {
            token_step(TokenV::Integer(digits_val(lex) as i32), pos, d1, line)
        } else {
            ScanStep {
                pos: d1,
                line,
                tok: None,
                err: Some(ScanErrV { line, message: "Invalid integer value"@ }),
            }
        }
    }
}

/// An identifier or keyword starting at `pos`: a maximal run of identifier
/// bytes, emitted as the matching reserved word when the lexeme matches one
/// case-insensitively, and as an identifier otherwise.
pub open spec fn scan_ident_step(s: Seq<u8>, pos: int, line: int) -> ScanStep {
    let end = run_end(s, pos + 1, ByteClass::Ident);
    let lex = s.subrange(pos, end);
    let t = match keyword_token(lex) {
        Some(k) => k,
        None => TokenV::Identifier(lex),
    };
    token_step(t, pos, end, line)
}

/// A string literal whose opening quote stands at `pos`: the payload is the
/// text strictly between the quotes, embedded newlines advance the line
/// counter, and a buffer that ends before a closing quote is one
/// "unterminated" error, at the line where the literal began, consuming the
/// rest of the input.  The token, too, carries the line where the lexeme
/// began.
pub open spec fn scan_string_step(s: Seq<u8>, pos: int, line: int) -> ScanStep {
    let close = run_end(s, pos + 1, ByteClass::NonQuote);
    if close >= s.len() {
        ScanStep {
            pos: s.len() as int,
            line: line + newlines_in(s, pos + 1, s.len() as int),
            tok: None,
            err: Some(ScanErrV { line, message: "Unterminated string literal"@ }),
        }
    } else {
        ScanStep {
            pos: close + 1,
            line: line + newlines_in(s, pos + 1, close),
            tok: Some(
                SourceTokenV {
                    token: TokenV::String(s.subrange(pos + 1, close)),
                    offset: pos,
                    line,
                    length: close + 1 - pos,
                },
            ),
            err: None,
        }
    }
}

/// Every step consumes at least one byte, never runs past the end, and moves
/// the line counter forward by at most one line per consumed byte.
pub proof fn lemma_scan_step_ok(s: Seq<u8>, pos: int, line: int)
    requires
        0 <= pos < s.len(),
    ensures
        pos < scan_step(s, pos, line).pos <= s.len(),
        line <= scan_step(s, pos, line).line <= line + (scan_step(s, pos, line).pos - pos),
{
    lemma_run_end(s, pos + 1, ByteClass::Digit);
    lemma_run_end(s, pos + 1, ByteClass::Ident);
    lemma_run_end(s, pos + 1, ByteClass::NonQuote);
    if pos + 2 <= s.len() {
        lemma_run_end(s, pos + 2, ByteClass::NonNewline);
    }
    let d1 = run_end(s, pos + 1, ByteClass::Digit);
    if d1 + 1 <= s.len() {
        lemma_run_end(s, d1 + 1, ByteClass::Digit);
    }
    let close = run_end(s, pos + 1, ByteClass::NonQuote);
    if close >= s.len() {
        lemma_newlines_in_bound(s, pos + 1, s.len() as int);
    } else {
        lemma_newlines_in_bound(s, pos + 1, close);
    }
}

/// What a whole scan produces: the token sequence and the recorded errors,
/// each in source order.
pub struct ScanOut {
    pub toks: Seq<SourceTokenV>,
    pub errs: Seq<ScanErrV>,
}

/// The end-of-input token: offset at the end of the buffer, zero length.
pub open spec fn eof_token(s: Seq<u8>, line: int) -> SourceTokenV {
    SourceTokenV { token: TokenV::Eof, offset: s.len() as int, line, length: 0 }
}

/// Everything the scan produces from position `pos` on line `line` to the
/// end of the buffer, the final end-of-input token included.
pub open spec fn scan_from(s: Seq<u8>, pos: int, line: int) -> ScanOut
    decreases s.len() - pos,
    when 0 <= pos <= s.len()
    via scan_from_decreases
{
    if pos >= s.len() {
        ScanOut { toks: seq![eof_token(s, line)], errs: Seq::empty() }
    } else {
        let st = scan_step(s, pos, line);
        let rest = scan_from(s, st.pos, st.line);
        ScanOut { toks: opt_seq(st.tok) + rest.toks, errs: opt_seq(st.err) + rest.errs }
    }
}

#[via_fn]
proof fn scan_from_decreases(s: Seq<u8>, pos: int, line: int) {
    if 0 <= pos < s.len() {
        lemma_scan_step_ok(s, pos, line);
    }
}

/// The result of scanning a whole buffer.
pub open spec fn scan_spec(s: Seq<u8>) -> ScanOut {
    scan_from(s, 0, 1)
}

/// Whatever token one step emits covers exactly the bytes the step consumed,
/// starting at the step's own position, and is never the end-of-input token.
pub proof fn lemma_scan_step_tok(s: Seq<u8>, pos: int, line: int)
    requires
        0 <= pos < s.len(),
    ensures
        match scan_step(s, pos, line).tok {
            Some(t) => t.token != TokenV::Eof && t.offset == pos && t.length >= 0 && t.offset
                + t.length == scan_step(s, pos, line).pos,
            None => true,
        },
{
    lemma_scan_step_ok(s, pos, line);
    lemma_run_end(s, pos + 1, ByteClass::Digit);
    lemma_run_end(s, pos + 1, ByteClass::Ident);
    lemma_run_end(s, pos + 1, ByteClass::NonQuote);
    let d1 = run_end(s, pos + 1, ByteClass::Digit);
    if d1 + 1 <= s.len() {
        lemma_run_end(s, d1 + 1, ByteClass::Digit);
    }
    if is_alpha(s[pos]) {
        let lex = s.subrange(pos, run_end(s, pos + 1, ByteClass::Ident));
        match keyword_token(lex) {
            Some(k) => assert(k != TokenV::Eof),
            None => {},
        }
    }
}

/// Scanning always terminates in exactly one end-of-input token: the token
/// sequence is never empty, its last element is the end-of-input token,
/// placed at the very end of the buffer with length 0, and no other element
/// is an end-of-input token.
pub proof fn lemma_scan_ends_with_eof_from(s: Seq<u8>, pos: int, line: int)
    requires
        0 <= pos <= s.len(),
    ensures
        ({
            let toks = scan_from(s, pos, line).toks;
            toks.len() >= 1 && toks.last().token == TokenV::Eof && toks.last().offset == s.len()
                && toks.last().length == 0 && (forall|i: int|
                0 <= i < toks.len() - 1 ==> #[trigger] toks[i].token != TokenV::Eof)
        }),
    decreases s.len() - pos,
{
    if pos < s.len() {
        let st = scan_step(s, pos, line);
        lemma_scan_step_ok(s, pos, line);
        lemma_scan_step_tok(s, pos, line);
        lemma_scan_ends_with_eof_from(s, st.pos, st.line);
    }
}

/// Termination and end-of-input marker, for a whole scan: the success-case
/// token sequence always ends in the unique end-of-input token.
pub proof fn lemma_scan_terminates_with_eof(s: Seq<u8>)
    ensures
        ({
            let toks = scan_spec(s).toks;
            toks.len() >= 1 && toks.last().token == TokenV::Eof && toks.last().offset == s.len()
                && toks.last().length == 0 && (forall|i: int|
                0 <= i < toks.len() - 1 ==> #[trigger] toks[i].token != TokenV::Eof)
        }),
{
    lemma_scan_ends_with_eof_from(s, 0, 1);
}

/// Offsets and lengths of everything scanned from `pos` stay within
/// `[pos, s.len()]`, and consecutive tokens never overlap: each token begins
/// at or after the end of the one before it.
pub proof fn lemma_scan_offsets_from(s: Seq<u8>, pos: int, line: int)
    requires
        0 <= pos <= s.len(),
    ensures
        ({
            let toks = scan_from(s, pos, line).toks;
            (forall|i: int|
                0 <= i < toks.len() ==> pos <= #[trigger] toks[i].offset && toks[i].length >= 0
                    && toks[i].offset + toks[i].length <= s.len()) && (forall|i: int|
                0 < i < toks.len() ==> #[trigger] toks[i - 1].offset + toks[i - 1].length
                    <= toks[i].offset)
        }),
    decreases s.len() - pos,
{
    if pos < s.len() {
        let st = scan_step(s, pos, line);
        lemma_scan_step_ok(s, pos, line);
        lemma_scan_step_tok(s, pos, line);
        lemma_scan_offsets_from(s, st.pos, st.line);
        let toks = scan_from(s, pos, line).toks;
        let rest = scan_from(s, st.pos, st.line).toks;
        assert forall|i: int| 0 < i < toks.len() implies #[trigger] toks[i - 1].offset + toks[i
            - 1].length <= toks[i].offset by {
            match st.tok {
                Some(t) => {
                    if i >= 2 {
                        assert(toks[i - 1] == rest[i - 2]);
                        assert(toks[i] == rest[i - 1]);
                    }
                },
                None => {
                    assert(toks[i - 1] == rest[i - 1]);
                    assert(toks[i] == rest[i]);
                },
            }
        }
    }
}

/// Offset monotonicity, for a whole scan: every token's offset is at least
/// the previous token's offset plus its length, and every offset and span
/// stays within the buffer.
pub proof fn lemma_scan_offsets_monotone(s: Seq<u8>)
    ensures
        ({
            let toks = scan_spec(s).toks;
            (forall|i: int|
                0 <= i < toks.len() ==> 0 <= #[trigger] toks[i].offset && toks[i].length >= 0
                    && toks[i].offset + toks[i].length <= s.len()) && (forall|i: int|
                0 < i < toks.len() ==> #[trigger] toks[i - 1].offset + toks[i - 1].length
                    <= toks[i].offset)
        }),
{
    lemma_scan_offsets_from(s, 0, 1);
}

/// Longest-match determinism: whenever a lexeme begins at `pos` and the two
/// bytes there spell `!=`, `==`, `<=` or `>=`, the step emits the single
/// two-character token spanning both bytes, never two one-character tokens.
pub proof fn lemma_two_char_longest_match(s: Seq<u8>, pos: int, line: int)
    requires
        0 <= pos,
        pos + 1 < s.len(),
    ensures
        s[pos] == 33 && s[pos + 1] == 61 ==> scan_step(s, pos, line) == token_step(
            TokenV::BangEqual,
            pos,
            pos + 2,
            line,
        ),
        s[pos] == 61 && s[pos + 1] == 61 ==> scan_step(s, pos, line) == token_step(
            TokenV::EqualEqual,
            pos,
            pos + 2,
            line,
        ),
        s[pos] == 60 && s[pos + 1] == 61 ==> scan_step(s, pos, line) == token_step(
            TokenV::LessEqual,
            pos,
            pos + 2,
            line,
        ),
        s[pos] == 62 && s[pos + 1] == 61 ==> scan_step(s, pos, line) == token_step(
            TokenV::GreaterEqual,
            pos,
            pos + 2,
            line,
        ),
{
}

/// Keyword precedence: whenever a lexeme begins with a letter or `_` at
/// `pos`, the step consumes the maximal identifier run, and emits the
/// reserved-word token whenever that lexeme matches one case-insensitively —
/// never an identifier — and the identifier token carrying the lexeme
/// otherwise.
pub proof fn lemma_keyword_precedence(s: Seq<u8>, pos: int, line: int)
    requires
        0 <= pos < s.len(),
        is_alpha(s[pos]),
    ensures
        ({
            let end = run_end(s, pos + 1, ByteClass::Ident);
            let lex = s.subrange(pos, end);
            let st = scan_step(s, pos, line);
            (match keyword_token(lex) {
                Some(k) => st.tok == Some(
                    SourceTokenV { token: k, offset: pos, line, length: end - pos },
                ) && !(k is Identifier)
                ,
                None => st.tok == Some(
                    SourceTokenV {
                        token: TokenV::Identifier(lex),
                        offset: pos,
                        line,
                        length: end - pos,
                    },
                ),
            }) && st.pos == end
        }),
{
    lemma_run_end(s, pos + 1, ByteClass::Ident);
}

/// The values of a sequence of emitted tokens.
pub open spec fn toks_view(ts: Seq<SourceToken>) -> Seq<SourceTokenV> {
    ts.map_values(|t: SourceToken| t@)
}

/// The byte may continue an identifier.
fn ident_byte(b: u8) -> (r: bool)
    ensures
        r == is_ident_byte(b),
{
    (65 <= b && b <= 90) || (97 <= b && b <= 122) || b == 95 || (48 <= b && b <= 57)
}

/// The single-pass, single-use scanning state: the borrowed source, the
/// offset where the current lexeme began, the next unread offset, the
/// current 1-based line, and the tokens gathered so far.
pub struct Scanner<'a> {
    source: &'a str,
    start: usize,
    current: usize,
    line: usize,
    tokens: Vec<SourceToken>,
}

impl<'a> Scanner<'a> {
    /// The bytes of the borrowed source buffer.
    pub closed spec fn src(&self) -> Seq<u8> {
        self.source.spec_bytes()
    }

    /// A freshly constructed scanner that has consumed nothing.
    pub closed spec fn fresh(&self) -> bool {
        self.start == 0 && self.current == 0 && self.line == 1 && self.tokens@.len() == 0
    }

    pub fn new(source: &'a str) -> (r: Self)
        ensures
            r.src() == source.spec_bytes(),
            r.fresh(),
    {
        Self { source, start: 0, current: 0, line: 1, tokens: Vec::new() }
    }

    /// Scans the whole source, consuming the scanner: on success the full
    /// ordered token sequence, terminated by the end-of-input token; on
    /// failure one aggregate holding every lexical error found during the
    /// pass, in source order.  Which of the two comes out, and their exact
    /// contents, are given by `scan_spec` over the source bytes.
    pub fn scan_tokens(self) -> (r: CrustCoreResult<Vec<SourceToken>>)
        requires
            self.fresh(),
            self.src().len() < usize::MAX,
        ensures
            ({
                let out = scan_spec(self.src());
                match r {
                    Ok(toks) => out.errs.len() == 0 && toks_view(toks@) == out.toks,
                    Err(e) => out.errs.len() > 0 && match e {
                        CrustCoreErr::Multi { errors } => errs_match(errors@, out.errs),
                        _ => false,
                    },
                }
            }),
    {
        let mut sc = self;
        let ghost src = sc.src();
        let ghost full = scan_spec(src);
        let mut errors: Vec<CrustCoreErr> = Vec::new();
        while !sc.is_at_end()
            invariant
                sc.src() == src,
                src.len() < usize::MAX,
                sc.current as int <= src.len(),
                1 <= sc.line,
                sc.line as int <= 1 + sc.current as int,
                full == scan_spec(src),
                errors@.len() <= full.errs.len(),
                full.toks == toks_view(sc.tokens@) + scan_from(
                    src,
                    sc.current as int,
                    sc.line as int,
                ).toks,
                full.errs == full.errs.subrange(0, errors@.len() as int) + scan_from(
                    src,
                    sc.current as int,
                    sc.line as int,
                ).errs,
                errs_match(errors@, full.errs.subrange(0, errors@.len() as int)),
            decreases src.len() - sc.current as int,
        {
            let ghost pos0 = sc.current as int;
            let ghost line0 = sc.line as int;
            let ghost toks0 = sc.tokens@;
            let ghost errs0 = errors@;
            sc.start = sc.current;
            sc.scan_token(&mut errors);
            proof {
                let st = scan_step(src, pos0, line0);
                lemma_scan_step_ok(src, pos0, line0);
                let rest = scan_from(src, sc.current as int, sc.line as int);
                let done0 = full.errs.subrange(0, errs0.len() as int);
                // one unfolding of scan_from at the step just taken
                assert(scan_from(src, pos0, line0).toks == opt_seq(st.tok) + rest.toks);
                assert(scan_from(src, pos0, line0).errs == opt_seq(st.err) + rest.errs);
                assert(full.toks =~= toks_view(sc.tokens@) + rest.toks);
                assert(full.errs =~= (done0 + opt_seq(st.err)) + rest.errs);
                assert(full.errs.subrange(0, errors@.len() as int) =~= done0 + opt_seq(st.err));
            }
        }
        let ghost line_end = sc.line as int;
        let eof = SourceToken::new(Token::Eof, sc.current, sc.line, 0);
        sc.tokens.push(eof);
        proof {
            assert(scan_from(src, sc.current as int, line_end).toks =~= seq![
                eof_token(src, line_end),
            ]);
            assert(toks_view(sc.tokens@) =~= full.toks);
            assert(full.errs.subrange(0, errors@.len() as int) =~= full.errs);
        }
        if errors.len() > 0 {
            Err(CrustCoreErr::Multi { errors })
        } else {
            Ok(sc.tokens)
        }
    }

    /// One dispatch on the byte under the cursor: consumes exactly the bytes
    /// that `scan_step` says, and records its token or error, if any.
    fn scan_token(&mut self, errors: &mut Vec<CrustCoreErr>)
        requires
            old(self).start == old(self).current,
            (old(self).current as int) < old(self).src().len(),
            old(self).src().len() < usize::MAX,
            1 <= old(self).line,
            old(self).line as int <= 1 + old(self).current as int,
        ensures
            final(self).src() == old(self).src(),
            final(self).start == old(self).start,
            ({
                let st = scan_step(old(self).src(), old(self).current as int, old(self).line as int);
                final(self).current as int == st.pos && final(self).line as int == st.line && toks_view(
                    final(self).tokens@,
                ) == toks_view(old(self).tokens@) + opt_seq(st.tok) && final(errors)@.len() == old(
                    errors,
                )@.len() + opt_seq(st.err).len() && (forall|i: int|
                    0 <= i < old(errors)@.len() ==> final(errors)@[i] == old(errors)@[i]) && (
                match st.err {
                    Some(v) => is_scan_err(final(errors)@[final(errors)@.len() - 1], v),
                    None => true,
                })
            }),
    {
        let ghost src = self.src();
        let ghost pos = self.current as int;
        let ghost line0 = self.line as int;
        let b = self.advance();
        if b == 40 {  // (
            self.push_token(Token::LeftParen);
        } else if b == 41 {  // )
            self.push_token(Token::RightParen);
        } else if b == 123 {  // {
            self.push_token(Token::LeftBrace);
        } else if b == 125 {  // }
            self.push_token(Token::RightBrace);
        } else if b == 44 {  // ,
            self.push_token(Token::Comma);
        } else if b == 46 {  // .
            self.push_token(Token::Dot);
        } else if b == 45 {  // -
            self.push_token(Token::Minus);
        } else if b == 43 {  // +
            self.push_token(Token::Plus);
        } else if b == 59 {  // ;
            self.push_token(Token::Semicolon);
        } else if b == 42 {  // *
            self.push_token(Token::Star);
        } else if b == 33 {  // !
            if self.advance_if(61) {
                self.push_token(Token::BangEqual);
            } else {
                self.push_token(Token::Bang);
            }
        } else if b == 61 {  // =
            if self.advance_if(61) {
                self.push_token(Token::EqualEqual);
            } else {
                self.push_token(Token::Equal);
            }
        } else if b == 60 {  // <
            if self.advance_if(61) {
                self.push_token(Token::LessEqual);
            } else {
                self.push_token(Token::Less);
            }
        } else if b == 62 {  // >
            if self.advance_if(61) {
                self.push_token(Token::GreaterEqual);
            } else {
                self.push_token(Token::Greater);
            }
        } else if b == 47 {  // /
            if self.advance_if(47) {
                // a line comment: discard to just before the newline
                while self.peek() != 10 && !self.is_at_end()
                    invariant
                        self.src() == src,
                        pos + 2 <= self.current as int <= src.len(),
                        self.start == old(self).start,
                        self.line == old(self).line,
                        self.tokens@ == old(self).tokens@,
                        forall|k: int|
                            pos + 2 <= k < self.current as int ==> in_class(
                                #[trigger] src[k],
                                ByteClass::NonNewline,
                            ),
                    decreases src.len() - self.current as int,
                {
                    self.advance();
                }
                proof {
                    lemma_run_end_is(src, pos + 2, self.current as int, ByteClass::NonNewline);
                }
            } else {
                self.push_token(Token::Slash);
            }
        } else if 48 <= b && b <= 57 {  // a decimal digit
            if let Err(e) = self.take_number_literal() {
                errors.push(e);
            }
        } else if (65 <= b && b <= 90) || (97 <= b && b <= 122) || b == 95 {  // a letter or _
            if let Err(e) = self.take_identifier() {
                errors.push(e);
            }
        } else if b == 32 || b == 9 || b == 13 {  // space, tab, carriage return
        } else if b == 10 {  // newline
            self.line = self.line + 1;
        } else if b == 34 {  // double quote
            if let Err(e) = self.take_string_literal() {
                errors.push(e);
            }
        } else {
            errors.push(
                CrustCoreErr::Scan { line: self.line, message: "Unexpected character".to_owned() },
            );
        }
    }

    /// The byte length of the source.
    fn src_len(&self) -> (r: usize)
        ensures
            r == self.src().len(),
    {
        self.source.as_bytes().len()
    }

    fn is_at_end(&self) -> (r: bool)
        ensures
            r == (self.current as int >= self.src().len()),
    {
        self.current >= self.src_len()
    }

    fn byte_at(&self, i: usize) -> (r: u8)
        requires
            (i as int) < self.src().len(),
        ensures
            r == self.src()[i as int],
    {
        self.source.as_bytes()[i]
    }

    /// Consumes and returns the byte under the cursor.
    fn advance(&mut self) -> (r: u8)
        requires
            (old(self).current as int) < old(self).src().len(),
        ensures
            final(self).src() == old(self).src(),
            final(self).start == old(self).start,
            final(self).line == old(self).line,
            final(self).tokens@ == old(self).tokens@,
            final(self).current == old(self).current + 1,
            r == final(self).src()[old(self).current as int],
    {
        // learning the length shows the verifier that the cursor fits usize
        let _n = self.src_len();
        let c = self.byte_at(self.current);
        self.current = self.current + 1;
        c
    }

    /// Consumes the byte under the cursor only when it equals `pattern`.
    fn advance_if(&mut self, pattern: u8) -> (r: bool)
        requires
            old(self).current as int <= old(self).src().len(),
        ensures
            final(self).src() == old(self).src(),
            final(self).start == old(self).start,
            final(self).line == old(self).line,
            final(self).tokens@ == old(self).tokens@,
            r == ((old(self).current as int) < old(self).src().len() && old(self).src()[old(
                self,
            ).current as int] == pattern),
            final(self).current as int == if r {
                old(self).current as int + 1
            } else {
                old(self).current as int
            },
    {
        let n = self.src_len();
        if self.current >= n {
            false
        } else if self.byte_at(self.current) != pattern {
            false
        } else {
            self.current = self.current + 1;
            true
        }
    }

    /// The byte under the cursor, or 0 at the end of the input.
    fn peek(&self) -> (r: u8)
        requires
            self.current as int <= self.src().len(),
        ensures
            r == if (self.current as int) < self.src().len() {
                self.src()[self.current as int]
            } else {
                0u8
            },
    {
        if self.is_at_end() {
            0
        } else {
            self.byte_at(self.current)
        }
    }

    /// The byte after the cursor, or 0 when none exists.
    fn peek_next(&self) -> (r: u8)
        requires
            self.current as int <= self.src().len(),
        ensures
            r == if (self.current as int) + 1 < self.src().len() {
                self.src()[self.current as int + 1]
            } else {
                0u8
            },
    {
        let n = self.src_len();
        if self.current >= n || self.current + 1 >= n {
            0
        } else {
            self.byte_at(self.current + 1)
        }
    }

    /// Emits `token` for the lexeme `[start, current)` on the current line.
    fn push_token(&mut self, token: Token)
        requires
            old(self).start <= old(self).current,
        ensures
            final(self).src() == old(self).src(),
            final(self).start == old(self).start,
            final(self).line == old(self).line,
            final(self).current == old(self).current,
            toks_view(final(self).tokens@) == toks_view(old(self).tokens@).push(
                SourceTokenV {
                    token: token@,
                    offset: old(self).start as int,
                    line: old(self).line as int,
                    length: old(self).current - old(self).start,
                },
            ),
    {
        let ghost t0 = token@;
        let t = SourceToken::new(token, self.start, self.line, self.current - self.start);
        self.tokens.push(t);
        proof {
            assert(toks_view(self.tokens@) =~= toks_view(old(self).tokens@).push(t@));
        }
    }

    /// Consumes the rest of a string literal whose opening quote stands at
    /// `start`, as `scan_string_step` describes.
    fn take_string_literal(&mut self) -> (r: CrustCoreResult<()>)
        requires
            old(self).start as int + 1 == old(self).current as int,
            old(self).current as int <= old(self).src().len(),
            old(self).src().len() < usize::MAX,
            1 <= old(self).line,
            old(self).line as int <= 1 + old(self).start as int,
        ensures
            final(self).src() == old(self).src(),
            final(self).start == old(self).start,
            ({
                let st = scan_string_step(
                    old(self).src(),
                    old(self).start as int,
                    old(self).line as int,
                );
                final(self).current as int == st.pos && final(self).line as int == st.line && toks_view(
                    final(self).tokens@,
                ) == toks_view(old(self).tokens@) + opt_seq(st.tok) && (match (r, st.err) {
                    (Ok(_), None) => true,
                    (Err(e), Some(v)) => is_scan_err(e, v),
                    _ => false,
                })
            }),
    {
        let ghost src = self.src();
        let ghost open_pos = self.start as int;
        let ghost line0 = self.line as int;
        let line_start = self.line;
        while self.peek() != 34 && !self.is_at_end()
            invariant
                self.src() == src,
                self.start == old(self).start,
                self.tokens@ == old(self).tokens@,
                open_pos == self.start as int,
                open_pos + 1 <= self.current as int <= src.len(),
                src.len() < usize::MAX,
                forall|k: int|
                    open_pos + 1 <= k < self.current as int ==> in_class(
                        #[trigger] src[k],
                        ByteClass::NonQuote,
                    ),
                self.line as int == line0 + newlines_in(src, open_pos + 1, self.current as int),
                line0 <= 1 + open_pos,
            decreases src.len() - self.current as int,
        {
            proof {
                lemma_newlines_in_bound(src, open_pos + 1, self.current as int);
            }
            if self.peek() == 10 {
                self.line = self.line + 1;
            }
            self.advance();
        }
        proof {
            lemma_run_end_is(src, open_pos + 1, self.current as int, ByteClass::NonQuote);
        }
        if self.is_at_end() {
            return Err(
                CrustCoreErr::Scan {
                    line: line_start,
                    message: "Unterminated string literal".to_owned(),
                },
            );
        }
        self.advance();
        let content = slice_to_vec(
            slice_subrange(self.source.as_bytes(), self.start + 1, self.current - 1),
        );
        let t = SourceToken::new(
            Token::String(content),
            self.start,
            line_start,
            self.current - self.start,
        );
        self.tokens.push(t);
        proof {
            assert(toks_view(self.tokens@) =~= toks_view(old(self).tokens@).push(t@));
        }
        Ok(())
    }

    /// Consumes the rest of a number literal whose first digit stands at
    /// `start`, as `scan_number_step` describes.
    fn take_number_literal(&mut self) -> (r: CrustCoreResult<()>)
        requires
            old(self).start as int + 1 == old(self).current as int,
            old(self).current as int <= old(self).src().len(),
            is_digit(old(self).src()[old(self).start as int]),
        ensures
            final(self).src() == old(self).src(),
            final(self).start == old(self).start,
            ({
                let st = scan_number_step(
                    old(self).src(),
                    old(self).start as int,
                    old(self).line as int,
                );
                final(self).current as int == st.pos && final(self).line as int == st.line && toks_view(
                    final(self).tokens@,
                ) == toks_view(old(self).tokens@) + opt_seq(st.tok) && (match (r, st.err) {
                    (Ok(_), None) => true,
                    (Err(e), Some(v)) => is_scan_err(e, v),
                    _ => false,
                })
            }),
    {
        let ghost src = self.src();
        let ghost pos = self.start as int;
        while 48 <= self.peek() && self.peek() <= 57
            invariant
                self.src() == src,
                self.start == old(self).start,
                self.line == old(self).line,
                self.tokens@ == old(self).tokens@,
                pos + 1 <= self.current as int <= src.len(),
                forall|k: int|
                    pos + 1 <= k < self.current as int ==> in_class(
                        #[trigger] src[k],
                        ByteClass::Digit,
                    ),
            decreases src.len() - self.current as int,
        {
            self.advance();
        }
        proof {
            lemma_run_end_is(src, pos + 1, self.current as int, ByteClass::Digit);
        }
        let ghost d1 = self.current as int;
        if self.peek() == 46 && 48 <= self.peek_next() && self.peek_next() <= 57 {
            self.advance();
            while 48 <= self.peek() && self.peek() <= 57
                invariant
                    self.src() == src,
                    self.start == old(self).start,
                    self.line == old(self).line,
                    self.tokens@ == old(self).tokens@,
                    d1 + 1 <= self.current as int <= src.len(),
                    forall|k: int|
                        d1 + 1 <= k < self.current as int ==> in_class(
                            #[trigger] src[k],
                            ByteClass::Digit,
                        ),
                decreases src.len() - self.current as int,
            {
                self.advance();
            }
            proof {
                lemma_run_end_is(src, d1 + 1, self.current as int, ByteClass::Digit);
            }
            let lex = slice_to_vec(
                slice_subrange(self.source.as_bytes(), self.start, self.current),
            );
            self.push_token(Token::Float(lex));
            Ok(())
        } else {
            let lex = slice_subrange(self.source.as_bytes(), self.start, self.current);
            proof {
                assert(forall|k: int|
                    0 <= k < lex@.len() ==> is_digit(#[trigger] lex@[k]) == in_class(
                        lex@[k],
                        ByteClass::Digit,
                    ));
                lemma_digits_val_nonneg(lex@);
            }
            match parse_i32_digits(lex) {
                Some(v) => {
                    self.push_token(Token::Integer(v));
                    Ok(())
                },
                None => Err(
                    CrustCoreErr::Scan {
                        line: self.line,
                        message: "Invalid integer value".to_owned(),
                    },
                ),
            }
        }
    }

    /// Consumes the rest of an identifier or keyword whose first byte stands
    /// at `start`, as `scan_ident_step` describes.
    fn take_identifier(&mut self) -> (r: CrustCoreResult<()>)
        requires
            old(self).start as int + 1 == old(self).current as int,
            old(self).current as int <= old(self).src().len(),
        ensures
            final(self).src() == old(self).src(),
            final(self).start == old(self).start,
            r is Ok,
            ({
                let st = scan_ident_step(
                    old(self).src(),
                    old(self).start as int,
                    old(self).line as int,
                );
                final(self).current as int == st.pos && final(self).line as int == st.line && toks_view(
                    final(self).tokens@,
                ) == toks_view(old(self).tokens@) + opt_seq(st.tok) && st.err is None
            }),
    {
        let ghost src = self.src();
        let ghost pos = self.start as int;
        while ident_byte(self.peek())
            invariant
                self.src() == src,
                self.start == old(self).start,
                self.line == old(self).line,
                self.tokens@ == old(self).tokens@,
                pos + 1 <= self.current as int <= src.len(),
                forall|k: int|
                    pos + 1 <= k < self.current as int ==> in_class(
                        #[trigger] src[k],
                        ByteClass::Ident,
                    ),
            decreases src.len() - self.current as int,
        {
            self.advance();
        }
        proof {
            lemma_run_end_is(src, pos + 1, self.current as int, ByteClass::Ident);
        }
        let lex = slice_subrange(self.source.as_bytes(), self.start, self.current);
        match try_as_keyword(lex) {
            Some(k) => self.push_token(k),
            None => self.push_token(Token::Identifier(slice_to_vec(lex))),
        }
        Ok(())
    }
}

} // verus!
