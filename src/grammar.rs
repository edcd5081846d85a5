//! The lexical grammar, stated over the characters of the source: where
//! skippable content ends, and which token or error starts at a given index.
use vstd::prelude::*;
use crate::offsets::byte_offset;
use crate::scanner::ScanError;
use crate::token::{Keyword, Symbol, TokenKind};

verus! {

/// Whether `c` has the Unicode White_Space property.
pub uninterp spec fn white_space(c: char) -> bool;

/// Whitespace: among ASCII characters the space and `\t`, `\n`, `\x0B`,
/// `\x0C`, `\r`; beyond ASCII, the characters with the White_Space property.
pub open spec fn is_space(c: char) -> bool {
    if (c as u32) < 0x80 {
        c == ' ' || ('\t' <= c && c <= '\r')
    } else {
        white_space(c)
    }
}

pub open spec fn is_ident_start(c: char) -> bool {
    ('a' <= c && c <= 'z') || ('A' <= c && c <= 'Z') || c == '_'
}

pub open spec fn is_digit(c: char) -> bool {
    '0' <= c && c <= '9'
}

pub open spec fn is_ident_char(c: char) -> bool {
    is_ident_start(c) || is_digit(c)
}

pub open spec fn is_number_char(c: char) -> bool {
    is_digit(c) || c == '_'
}

/// End of the maximal run of identifier characters that starts at `i`.
pub open spec fn ident_end(src: Seq<char>, i: int) -> int
    decreases src.len() - i,
{
    if 0 <= i < src.len() && is_ident_char(src[i]) {
        ident_end(src, i + 1)
    } else {
        i
    }
}

/// End of the maximal run of digits and separators that starts at `i`.
pub open spec fn number_end(src: Seq<char>, i: int) -> int
    decreases src.len() - i,
{
    if 0 <= i < src.len() && is_number_char(src[i]) {
        number_end(src, i + 1)
    } else {
        i
    }
}

/// Where the whitespace and line comments that start at `i` end. In a comment
/// (`in_comment`) everything up to and including the next line feed is skipped.
pub open spec fn skip_end(src: Seq<char>, i: int, in_comment: bool) -> int
    decreases src.len() - i,
{
    if i < 0 || i >= src.len() {
        i
    } else if in_comment {
        skip_end(src, i + 1, src[i] != '\n')
    } else if is_space(src[i]) {
        skip_end(src, i + 1, false)
    } else if src[i] == '/' && i + 1 < src.len() && src[i + 1] == '/' {
        skip_end(src, i + 2, true)
    } else {
        i
    }
}

/// The keyword spelled by `s`, if any.
pub open spec fn keyword_of(s: Seq<char>) -> Option<Keyword> {
    if s == seq!['i', 'f'] {
        Some(Keyword::If)
    } else if s == seq!['e', 'l', 's', 'e'] {
        Some(Keyword::Else)
    } else if s == seq!['e', 'n', 'd'] {
        Some(Keyword::End)
    } else if s == seq!['f', 'u', 'n'] {
        Some(Keyword::Fun)
    } else {
        None
    }
}

/// `s` with every digit-group separator `_` removed.
pub open spec fn digits_of(s: Seq<char>) -> Seq<char>
    decreases s.len(),
{
    if s.len() == 0 {
        s
    } else if s.last() == '_' {
        digits_of(s.drop_last())
    } else {
        digits_of(s.drop_last()).push(s.last())
    }
}

/// The character that `\c` stands for in a string literal.
pub open spec fn escape_of(c: char) -> Option<char> {
    if c == 'n' {
        Some('\n')
    } else if c == 'r' {
        Some('\r')
    } else if c == 't' {
        Some('\t')
    } else if c == '\\' {
        Some('\\')
    } else if c == '"' {
        Some('"')
    } else if c == '\'' {
        Some('\'')
    } else {
        None
    }
}

/// The symbol that `c` forms on its own when it leads no two-character symbol.
pub open spec fn single_symbol_of(c: char) -> Option<Symbol> {
    if c == ';' {
        Some(Symbol::Semicolon)
    } else if c == ',' {
        Some(Symbol::Comma)
    } else if c == '.' {
        Some(Symbol::Dot)
    } else if c == '+' {
        Some(Symbol::Plus)
    } else if c == '*' {
        Some(Symbol::Star)
    } else if c == '\\' {
        Some(Symbol::Backslash)
    } else {
        None
    }
}

/// A token as the grammar sees it: kind, character span `[start, end)`, and decoded text.
pub struct Lexeme {
    pub kind: TokenKind,
    pub start: int,
    pub end: int,
    pub text: Seq<char>,
}

/// A lexeme whose decoded text is its source text.
pub open spec fn plain(src: Seq<char>, kind: TokenKind, start: int, end: int) -> Lexeme {
    Lexeme { kind, start, end, text: src.subrange(start, end) }
}

/// The symbol at `s`, led by a character that also leads the two-character
/// symbol `double` when followed by `second`.
pub open spec fn maybe_double(src: Seq<char>, s: int, second: char, single: Symbol, double: Symbol) -> Lexeme {
    if s + 1 < src.len() && src[s + 1] == second {
        plain(src, TokenKind::Symbol(double), s, s + 2)
    } else {
        plain(src, TokenKind::Symbol(single), s, s + 1)
    }
}

/// `d` put in front of the decoded text of a successful string scan.
pub open spec fn prepend(d: Seq<char>, r: Result<(int, Seq<char>), ScanError>) -> Result<(int, Seq<char>), ScanError> {
    match r {
        Ok((end, text)) => Ok((end, d + text)),
        Err(e) => Err(e),
    }
}

/// The rest of a string literal that opened at `start`, from index `i` on:
/// the index after the closing quote and the decoded text, or the error.
pub open spec fn string_rest(src: Seq<char>, i: int, start: int) -> Result<(int, Seq<char>), ScanError>
    decreases src.len() - i,
{
    if i < 0 || i >= src.len() {
        Err(ScanError::UnexpectedEndOfInputInString {
            offset: byte_offset(src, src.len() as int) as usize,
            string_start: byte_offset(src, start) as usize,
        })
    } else if src[i] == '"' {
        Ok((i + 1, Seq::empty()))
    } else if src[i] == '\\' {
        if i + 1 >= src.len() {
            Err(ScanError::UnexpectedEndOfInputInEscapeSequence {
                offset: byte_offset(src, src.len() as int) as usize,
            })
        } else {
            match escape_of(src[i + 1]) {
                Some(d) => prepend(seq![d], string_rest(src, i + 2, start)),
                None => Err(ScanError::UnexpectedCharacterInEscapeSequence {
                    offset: byte_offset(src, i + 1) as usize,
                    unexpected: src[i + 1],
                }),
            }
        }
    } else {
        prepend(seq![src[i]], string_rest(src, i + 1, start))
    }
}

/// The token, or the error, that starts at index `s` (after skippable content).
pub open spec fn lex_at(src: Seq<char>, s: int) -> Result<Lexeme, ScanError> {
    if s < 0 || s >= src.len() {
        Ok(Lexeme { kind: TokenKind::Eof, start: s, end: s, text: Seq::empty() })
    } else {
        let c = src[s];
        if c == '/' {
            Ok(plain(src, TokenKind::Symbol(Symbol::Slash), s, s + 1))
        } else if is_ident_start(c) {
            let e = ident_end(src, s);
            Ok(plain(src, match keyword_of(src.subrange(s, e)) {
                Some(k) => TokenKind::Keyword(k),
                None => TokenKind::Identifier,
            }, s, e))
        } else if is_digit(c) {
            let e = number_end(src, s);
            Ok(Lexeme { kind: TokenKind::Number, start: s, end: e, text: digits_of(src.subrange(s, e)) })
        } else if c == ':' {
            Ok(maybe_double(src, s, ':', Symbol::Colon, Symbol::DoubleColon))
        } else if c == '=' {
            Ok(maybe_double(src, s, '=', Symbol::Eq, Symbol::EqEq))
        } else if c == '-' {
            Ok(maybe_double(src, s, '>', Symbol::Minus, Symbol::Arrow))
        } else if single_symbol_of(c) is Some {
            Ok(plain(src, TokenKind::Symbol(single_symbol_of(c)->0), s, s + 1))
        } else if c == '"' {
            match string_rest(src, s + 1, s) {
                Ok((e, text)) => Ok(Lexeme { kind: TokenKind::String, start: s, end: e, text }),
                Err(err) => Err(err),
            }
        } else {
            Err(ScanError::UnexpectedCharacter { offset: byte_offset(src, s) as usize, unexpected: c })
        }
    }
}

/// The token, or the error, that a scan from index `i` yields: skippable
/// content is passed over first.
pub open spec fn next_token(src: Seq<char>, i: int) -> Result<Lexeme, ScanError> {
    lex_at(src, skip_end(src, i, false))
}

} // verus!
