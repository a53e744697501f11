//! The token model: the closed set of lexical categories the scanner emits,
//! and the `SourceToken` wrapper that attaches position metadata to a token.
//!
//! Literal payloads are kept as the raw bytes of the lexeme (identifier
//! text, string content, and the exact text of a float literal) or as a
//! plain `i32`, so that every payload is a value the verifier can reason
//! about directly; decoding a float lexeme into a machine float is left to
//! the unverified rim around the library.

use vstd::prelude::*;
use vstd::string::StringSliceAdditionalSpecFns;

verus! {

/// A classified lexical unit.  Every variant is payload-free except the four
/// literal variants.
#[derive(Debug, PartialEq, Eq)]
pub enum Token {
    // Single-character symbols
    LeftParen,
    RightParen,
    LeftBrace,
    RightBrace,
    Comma,
    Dot,
    Minus,
    Plus,
    Semicolon,
    Slash,
    Star,
    // One/two-character operators and word operators
    Bang,
    BangEqual,
    Equal,
    EqualEqual,
    Greater,
    GreaterEqual,
    Less,
    LessEqual,
    BitAnd,
    BitOr,
    And,
    Or,
    // End-of-input marker
    Eof,
    // Reserved words
    Class,
    If,
    Else,
    True,
    False,
    Fn,
    For,
    Mut,
    While,
    Loop,
    Break,
    Return,
    This,
    Super,
    Let,
    // Literals: identifier text, string content without quotes, the exact
    // text of a float literal, a signed 32-bit integer
    Identifier(Vec<u8>),
    String(Vec<u8>),
    Float(Vec<u8>),
    Integer(i32),
}

/// The mathematical value of a `Token`: the same variant set with byte
/// payloads abstracted to sequences.
pub enum TokenV {
    LeftParen,
    RightParen,
    LeftBrace,
    RightBrace,
    Comma,
    Dot,
    Minus,
    Plus,
    Semicolon,
    Slash,
    Star,
    Bang,
    BangEqual,
    Equal,
    EqualEqual,
    Greater,
    GreaterEqual,
    Less,
    LessEqual,
    BitAnd,
    BitOr,
    And,
    Or,
    Eof,
    Class,
    If,
    Else,
    True,
    False,
    Fn,
    For,
    Mut,
    While,
    Loop,
    Break,
    Return,
    This,
    Super,
    Let,
    Identifier(Seq<u8>),
    String(Seq<u8>),
    Float(Seq<u8>),
    Integer(i32),
}

impl View for Token {
    type V = TokenV;

    open spec fn view(&self) -> TokenV {
        match self {
            Token::LeftParen => TokenV::LeftParen,
            Token::RightParen => TokenV::RightParen,
            Token::LeftBrace => TokenV::LeftBrace,
            Token::RightBrace => TokenV::RightBrace,
            Token::Comma => TokenV::Comma,
            Token::Dot => TokenV::Dot,
            Token::Minus => TokenV::Minus,
            Token::Plus => TokenV::Plus,
            Token::Semicolon => TokenV::Semicolon,
            Token::Slash => TokenV::Slash,
            Token::Star => TokenV::Star,
            Token::Bang => TokenV::Bang,
            Token::BangEqual => TokenV::BangEqual,
            Token::Equal => TokenV::Equal,
            Token::EqualEqual => TokenV::EqualEqual,
            Token::Greater => TokenV::Greater,
            Token::GreaterEqual => TokenV::GreaterEqual,
            Token::Less => TokenV::Less,
            Token::LessEqual => TokenV::LessEqual,
            Token::BitAnd => TokenV::BitAnd,
            Token::BitOr => TokenV::BitOr,
            Token::And => TokenV::And,
            Token::Or => TokenV::Or,
            Token::Eof => TokenV::Eof,
            Token::Class => TokenV::Class,
            Token::If => TokenV::If,
            Token::Else => TokenV::Else,
            Token::True => TokenV::True,
            Token::False => TokenV::False,
            Token::Fn => TokenV::Fn,
            Token::For => TokenV::For,
            Token::Mut => TokenV::Mut,
            Token::While => TokenV::While,
            Token::Loop => TokenV::Loop,
            Token::Break => TokenV::Break,
            Token::Return => TokenV::Return,
            Token::This => TokenV::This,
            Token::Super => TokenV::Super,
            Token::Let => TokenV::Let,
            Token::Identifier(text) => TokenV::Identifier(text@),
            Token::String(text) => TokenV::String(text@),
            Token::Float(text) => TokenV::Float(text@),
            Token::Integer(value) => TokenV::Integer(*value),
        }
    }
}

/// A token together with its position metadata: `offset` is the byte
/// position of the first byte of the lexeme in the source buffer, `length`
/// its byte span (0 for the end-of-input token), and `line` the 1-based line
/// number on which the lexeme starts.
#[derive(Debug, PartialEq, Eq)]
pub struct SourceToken {
    pub token: Token,
    pub offset: usize,
    pub line: usize,
    pub length: usize,
}

/// The mathematical value of a `SourceToken`.
pub struct SourceTokenV {
    pub token: TokenV,
    pub offset: int,
    pub line: int,
    pub length: int,
}

impl View for SourceToken {
    type V = SourceTokenV;

    open spec fn view(&self) -> SourceTokenV {
        SourceTokenV {
            token: self.token@,
            offset: self.offset as int,
            line: self.line as int,
            length: self.length as int,
        }
    }
}

impl SourceToken {
    pub fn new(token: Token, offset: usize, line: usize, length: usize) -> (r: Self)
        ensures
            r@ == (SourceTokenV {
                token: token@,
                offset: offset as int,
                line: line as int,
                length: length as int,
            }),
    {
        Self { token, offset, line, length }
    }
}

/// ASCII lower-casing of one byte: `A`..`Z` map to `a`..`z`, every other
/// byte is unchanged.
pub open spec fn lower(b: u8) -> u8 {
    if 65 <= b && b <= 90 {
        (b + 32) as u8
    } else {
        b
    }
}

/// ASCII lower-casing of a byte sequence.
pub open spec fn lower_seq(s: Seq<u8>) -> Seq<u8> {
    s.map_values(|b: u8| lower(b))
}

/// The reserved-word table: the token a candidate identifier lexeme stands
/// for, if its ASCII lower-casing equals one of the 15 reserved words, and
/// nothing otherwise.
pub open spec fn keyword_token(text: Seq<u8>) -> Option<TokenV> {
    let low = lower_seq(text);
    if low == "class".spec_bytes() {
        Some(TokenV::Class)
    } else if low == "if".spec_bytes() {
        Some(TokenV::If)
    } else if low == "else".spec_bytes() {
        Some(TokenV::Else)
    } else if low == "true".spec_bytes() {
        Some(TokenV::True)
    } else if low == "false".spec_bytes() {
        Some(TokenV::False)
    } else if low == "fn".spec_bytes() {
        Some(TokenV::Fn)
    } else if low == "for".spec_bytes() {
        Some(TokenV::For)
    } else if low == "mut".spec_bytes() {
        Some(TokenV::Mut)
    } else if low == "while".spec_bytes() {
        Some(TokenV::While)
    } else if low == "loop".spec_bytes() {
        Some(TokenV::Loop)
    } else if low == "break".spec_bytes() {
        Some(TokenV::Break)
    } else if low == "return".spec_bytes() {
        Some(TokenV::Return)
    } else if low == "this".spec_bytes() {
        Some(TokenV::This)
    } else if low == "super".spec_bytes() {
        Some(TokenV::Super)
    } else if low == "let".spec_bytes() {
        Some(TokenV::Let)
    } else {
        None
    }
}

/// Lower-cases a byte buffer, ASCII-wise.
fn to_lower_bytes(text: &[u8]) -> (r: Vec<u8>)
    ensures
        r@ == lower_seq(text@),
{
    let mut out: Vec<u8> = Vec::new();
    let mut i: usize = 0;
    while i < text.len()
        invariant
            i <= text@.len(),
            out@ == lower_seq(text@.subrange(0, i as int)),
        decreases text@.len() - i,
    {
        let b = text[i];
        let low = if 65 <= b && b <= 90 {
            b + 32
        } else {
            b
        };
        out.push(low);
        i = i + 1;
        proof {
            assert(lower_seq(text@.subrange(0, i as int)) =~= lower_seq(
                text@.subrange(0, i - 1),
            ).push(lower(text@[i - 1])));
        }
    }
    proof {
        assert(text@.subrange(0, text@.len() as int) =~= text@);
    }
    out
}

/// Byte-for-byte equality of two buffers.
fn bytes_eq(a: &[u8], b: &[u8]) -> (r: bool)
    ensures
        r <==> a@ == b@,
{
    if a.len() != b.len() {
        proof {
            assert(a@.len() != b@.len());
        }
        return false;
    }
    let mut i: usize = 0;
    while i < a.len()
        invariant
            i <= a@.len(),
            a@.len() == b@.len(),
            forall|k: int| 0 <= k < i ==> a@[k] == b@[k],
        decreases a@.len() - i,
    {
        if a[i] != b[i] {
            return false;
        }
        i = i + 1;
    }
    proof {
        assert(a@ =~= b@);
    }
    true
}

/// Given a candidate identifier lexeme, returns the matching reserved-word
/// token if the lexeme, compared case-insensitively, equals one of the 15
/// reserved words, and nothing otherwise ("treat as identifier").
pub fn try_as_keyword(text: &[u8]) -> (r: Option<Token>)
    ensures
        r is Some <==> keyword_token(text@) is Some,
        r matches Some(k) ==> keyword_token(text@) == Some(k@),
{
    let low = to_lower_bytes(text);
    if bytes_eq(low.as_slice(), "class".as_bytes()) {
        Some(Token::Class)
    } else if bytes_eq(low.as_slice(), "if".as_bytes()) {
        Some(Token::If)
    } else if bytes_eq(low.as_slice(), "else".as_bytes()) {
        Some(Token::Else)
    } else if bytes_eq(low.as_slice(), "true".as_bytes()) {
        Some(Token::True)
    } else if bytes_eq(low.as_slice(), "false".as_bytes()) {
        Some(Token::False)
    } else if bytes_eq(low.as_slice(), "fn".as_bytes()) {
        Some(Token::Fn)
    } else if bytes_eq(low.as_slice(), "for".as_bytes()) {
        Some(Token::For)
    } else if bytes_eq(low.as_slice(), "mut".as_bytes()) {
        Some(Token::Mut)
    } else if bytes_eq(low.as_slice(), "while".as_bytes()) {
        Some(Token::While)
    } else if bytes_eq(low.as_slice(), "loop".as_bytes()) {
        Some(Token::Loop)
    } else if bytes_eq(low.as_slice(), "break".as_bytes()) {
        Some(Token::Break)
    } else if bytes_eq(low.as_slice(), "return".as_bytes()) {
        Some(Token::Return)
    } else if bytes_eq(low.as_slice(), "this".as_bytes()) {
        Some(Token::This)
    } else if bytes_eq(low.as_slice(), "super".as_bytes()) {
        Some(Token::Super)
    } else if bytes_eq(low.as_slice(), "let".as_bytes()) {
        Some(Token::Let)
    } else {
        None
    }
}

} // verus!
