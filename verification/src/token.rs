//! Spans, tokens and scans: the plain values that the tokenizer's output
//! is held in.

use vstd::prelude::*;

verus! {

/// A half-open range `[lo, hi)` of bytes. The tokenizer gives its two ends
/// as positions in the file that it scans; the rest of the library works
/// with byte offsets into the source text (see `origin`).
#[derive(Clone, Copy, Debug, PartialEq, Eq, Structural)]
pub struct Span {
    pub lo: u32,
    pub hi: u32,
}

/// What a consumer of the token stream needs to know of a token.
#[derive(Clone, Copy, Debug, PartialEq, Eq, Structural)]
pub enum TokenKind {
    /// A string literal; its span holds both quotes.
    Str,
    /// Template literal text; its span is masked whole.
    Template,
    /// A lexical error, reported in place of a token.
    Error,
    /// Any other token.
    Other,
}

/// One token of the stream: its kind and where it lies.
#[derive(Clone, Copy, Debug, PartialEq, Eq, Structural)]
pub struct Token {
    pub kind: TokenKind,
    pub span: Span,
}

/// What the tokenizer made of a text: the tokens in the order of the text,
/// and the number of lexical errors that it reported beside them.
#[derive(Debug)]
pub struct Scan {
    pub tokens: Vec<Token>,
    pub errors: usize,
}

/// A `Scan` as a mathematical value.
pub struct ScanView {
    pub tokens: Seq<Token>,
    pub errors: nat,
}

impl View for Scan {
    type V = ScanView;

    open spec fn view(&self) -> ScanView {
        ScanView { tokens: self.tokens@, errors: self.errors as nat }
    }
}

impl Span {
    /// The span from `lo` to `hi`.
    pub fn new(lo: u32, hi: u32) -> (span: Span)
        ensures
            span == (Span { lo, hi }),
    {
        Span { lo, hi }
    }
}

impl TokenKind {
    /// Whether tokens of this kind are literals, whose text is masked and
    /// whose place is reported.
    pub open spec fn is_literal(self) -> bool {
        self == TokenKind::Str || self == TokenKind::Template
    }
}

impl Token {
    /// The token of the given kind from `lo` to `hi`.
    pub fn new(kind: TokenKind, lo: u32, hi: u32) -> (token: Token)
        ensures
            token == (Token { kind, span: Span { lo, hi } }),
    {
        Token { kind, span: Span { lo, hi } }
    }

    /// Whether the token has the byte at offset `i` replaced by a space:
    /// a string literal hides what lies between its two delimiters, a
    /// template literal hides all of its span.
    pub open spec fn hides(self, i: int) -> bool {
        match self.kind {
            TokenKind::Str => self.span.lo < i < self.span.hi - 1,
            TokenKind::Template => self.span.lo <= i < self.span.hi,
            _ => false,
        }
    }
}

impl Scan {
    /// The scan with the given tokens and number of errors.
    pub fn new(tokens: Vec<Token>, errors: usize) -> (scan: Scan)
        ensures
            scan.tokens == tokens,
            scan.errors == errors,
    {
        Scan { tokens, errors }
    }
}

} // verus!
