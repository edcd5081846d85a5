use std::borrow::Cow;
use vstd::prelude::*;

verus! {

/// Punctuation forms recognised by the scanner.
#[derive(Debug, PartialEq, Eq, Structural, Clone, Copy)]
pub enum Symbol {
    Eq,
    EqEq,
    Comma,
    Colon,
    DoubleColon,
    Semicolon,
    Backslash,
    Arrow,
    Dot,
    Plus,
    Minus,
    Slash,
    Star,
}

/// Reserved identifier spellings.
#[derive(Debug, PartialEq, Eq, Structural, Clone, Copy)]
pub enum Keyword {
    If,
    Else,
    End,
    Fun,
}

/// The kind of a token.
#[derive(Debug, PartialEq, Eq, Structural, Clone, Copy)]
pub enum TokenKind {
    Eof,
    Identifier,
    Number,
    Symbol(Symbol),
    String,
    Keyword(Keyword),
}

/// One token: its kind, its byte span `[start, end)` in the source, the
/// source slice it was scanned from, and its decoded text.
#[derive(Debug)]
pub struct Token<'src> {
    pub(crate) kind: TokenKind,
    pub(crate) start: usize,
    pub(crate) end: usize,
    pub(crate) raw_text: &'src str,
    pub(crate) text: Cow<'src, str>,
}

/// What a token denotes: its kind, its byte span, and the characters of its
/// raw and decoded text.
pub struct TokenView {
    pub kind: TokenKind,
    pub start: nat,
    pub end: nat,
    pub raw: Seq<char>,
    pub text: Seq<char>,
}

impl<'src> View for Token<'src> {
    type V = TokenView;

    open(crate) spec fn view(&self) -> TokenView {
        TokenView {
            kind: self.kind,
            start: self.start as nat,
            end: self.end as nat,
            raw: self.raw_text@,
            text: self.text@,
        }
    }
}

impl<'src> Clone for Token<'src> {
    fn clone(&self) -> (r: Token<'src>) {
        let text = match &self.text {
            Cow::Borrowed(b) => Cow::Borrowed(*b),
            Cow::Owned(s) => Cow::Owned(s.clone()),
        };
        Token { kind: self.kind, start: self.start, end: self.end, raw_text: self.raw_text, text }
    }
}

impl<'src> Token<'src> {
    /// A token of the given kind with an empty span at offset zero.
    pub fn new(kind: TokenKind) -> (t: Token<'src>)
        ensures
            t@.kind == kind,
            t@.start == 0,
            t@.end == 0,
            t@.raw == Seq::<char>::empty(),
            t@.text == Seq::<char>::empty(),
    {
        let raw: &'src str = "";
        proof {
            reveal_strlit("");
        }
        Token { kind, start: 0, end: 0, raw_text: raw, text: Cow::Borrowed(raw) }
    }

    /// Byte offset at which the token starts.
    pub fn start(&self) -> (r: usize)
        ensures
            r == self@.start,
    {
        self.start
    }

    /// Byte offset just after the token.
    pub fn end(&self) -> (r: usize)
        ensures
            r == self@.end,
    {
        self.end
    }

    /// The kind of the token.
    pub fn kind(&self) -> (r: TokenKind)
        ensures
            r == self@.kind,
    {
        self.kind
    }

    /// The decoded text: digits only for a number, the unquoted and unescaped
    /// contents for a string, the raw text otherwise.
    pub fn text(&self) -> (r: &str)
        ensures
            r@ == self@.text,
    {
        match &self.text {
            Cow::Borrowed(b) => b,
            Cow::Owned(s) => s.as_str(),
        }
    }

    /// The source text the token was scanned from.
    pub fn raw_text(&self) -> (r: &'src str)
        ensures
            r@ == self@.raw,
    {
        self.raw_text
    }
}

} // verus!
