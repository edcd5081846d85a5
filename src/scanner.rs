//! The scanner: turns source text into tokens, one on each request.
use std::borrow::Cow;
use vstd::prelude::*;
use crate::cursor::Cursor;
use crate::grammar::{
    digits_of, escape_of, ident_end, is_digit, is_ident_char, is_ident_start, is_space, keyword_of, lex_at,
    maybe_double, next_token, number_end, plain, prepend, skip_end, string_rest, white_space,
    Lexeme,
};
use crate::offsets::byte_offset;
use crate::token::{Keyword, Symbol, Token, TokenKind, TokenView};

verus! {

/// Why a scan step failed; offsets are byte offsets into the source.
#[derive(Debug, PartialEq, Eq, Structural, Clone, Copy)]
pub enum ScanError {
    UnexpectedEndOfInput { offset: usize },
    UnexpectedCharacter { offset: usize, unexpected: char },
    UnexpectedCharacterInEscapeSequence { offset: usize, unexpected: char },
    UnexpectedEndOfInputInString { offset: usize, string_start: usize },
    UnexpectedEndOfInputInEscapeSequence { offset: usize },
}

/// Token view `t` is lexeme `lx` of `src`: same kind and decoded text, its
/// span is the lexeme's character span in bytes, and its raw text is that span.
pub open spec fn denotes(src: Seq<char>, t: TokenView, lx: Lexeme) -> bool {
    &&& 0 <= lx.start <= lx.end <= src.len()
    &&& t.kind == lx.kind
    &&& t.start == byte_offset(src, lx.start)
    &&& t.end == byte_offset(src, lx.end)
    &&& t.raw == src.subrange(lx.start, lx.end)
    &&& t.text == lx.text
}

/// `r` is the outcome that the grammar gives as `expected`, and on success the
/// cursor stands at character index `index`, just after the token.
pub open spec fn scanned<'a>(
    src: Seq<char>,
    r: Result<Token<'a>, ScanError>,
    expected: Result<Lexeme, ScanError>,
    index: nat,
) -> bool {
    match expected {
        Ok(lx) => match r {
            Ok(t) => denotes(src, t@, lx) && index == lx.end,
            Err(_) => false,
        },
        Err(e) => r == Err::<Token<'a>, ScanError>(e),
    }
}

/// Relies on `char::is_whitespace`: whether `c` has the Unicode White_Space
/// property. Among ASCII characters these are the space and `\t`, `\n`,
/// `\x0B`, `\x0C`, `\r`.
#[verifier::external_body]
fn is_white_space(c: char) -> (r: bool)
    ensures
        r == white_space(c),
        (c as u32) < 0x80 ==> (r <==> (c == ' ' || ('\t' <= c && c <= '\r'))),
{
    c.is_whitespace()
}

fn ident_start(c: char) -> (r: bool)
    ensures
        r == is_ident_start(c),
{
    ('a' <= c && c <= 'z') || ('A' <= c && c <= 'Z') || c == '_'
}

fn digit(c: char) -> (r: bool)
    ensures
        r == is_digit(c),
{
    '0' <= c && c <= '9'
}

fn ident_char(c: char) -> (r: bool)
    ensures
        r == is_ident_char(c),
{
    ident_start(c) || digit(c)
}

/// The keyword spelled by `raw`, if any.
fn keyword(raw: &str) -> (r: Option<Keyword>)
    ensures
        r == keyword_of(raw@),
{
    let n = raw.unicode_len();
    if n == 2 && raw.get_char(0) == 'i' && raw.get_char(1) == 'f' {
        assert(raw@ =~= seq!['i', 'f']);
        Some(Keyword::If)
    } else if n == 4 && raw.get_char(0) == 'e' && raw.get_char(1) == 'l' && raw.get_char(2) == 's'
        && raw.get_char(3) == 'e' {
        assert(raw@ =~= seq!['e', 'l', 's', 'e']);
        Some(Keyword::Else)
    } else if n == 3 && raw.get_char(0) == 'e' && raw.get_char(1) == 'n' && raw.get_char(2) == 'd' {
        assert(raw@ =~= seq!['e', 'n', 'd']);
        Some(Keyword::End)
    } else if n == 3 && raw.get_char(0) == 'f' && raw.get_char(1) == 'u' && raw.get_char(2) == 'n' {
        assert(raw@ =~= seq!['f', 'u', 'n']);
        Some(Keyword::Fun)
    } else {
        None
    }
}

/// The text that the escape `\c` stands for, if `c` forms an escape.
fn escape_text(c: char) -> (r: Option<&'static str>)
    ensures
        match escape_of(c) {
            Some(d) => r is Some && r->0@ == seq![d],
            None => r is None,
        },
{
    let t: &'static str = if c == 'n' {
        "\n"
    } else if c == 'r' {
        "\r"
    } else if c == 't' {
        "\t"
    } else if c == '\\' {
        "\\"
    } else if c == '"' {
        "\""
    } else if c == '\'' {
        "'"
    } else {
        return None;
    };
    proof {
        reveal_strlit("\n");
        reveal_strlit("\r");
        reveal_strlit("\t");
        reveal_strlit("\\");
        reveal_strlit("\"");
        reveal_strlit("'");
    }
    assert(t@ =~= seq![escape_of(c)->0]);
    Some(t)
}

/// The source text from byte offset `start` (character index `s`) up to the cursor.
fn current_text<'src>(cur: &Cursor<'src>, start: usize, Ghost(s): Ghost<int>) -> (r: &'src str)
    requires
        cur.wf(),
        0 <= s <= cur.index(),
        start == byte_offset(cur.src(), s),
    ensures
        r@ == cur.src().subrange(s, cur.index() as int),
{
    let end = cur.position();
    cur.slice(start, end, Ghost(s), Ghost(cur.index() as int))
}

/// The token of kind `kind` from `start` up to the cursor, whose decoded text is its raw text.
fn finish_token<'src>(cur: &Cursor<'src>, kind: TokenKind, start: usize, Ghost(s): Ghost<int>) -> (t: Token<'src>)
    requires
        cur.wf(),
        0 <= s <= cur.index(),
        start == byte_offset(cur.src(), s),
    ensures
        denotes(cur.src(), t@, plain(cur.src(), kind, s, cur.index() as int)),
{
    let end = cur.position();
    let raw = cur.slice(start, end, Ghost(s), Ghost(cur.index() as int));
    Token { kind, start, end, raw_text: raw, text: Cow::Borrowed(raw) }
}

/// Pass over the whitespace at the cursor.
fn skip_whitespace(cur: &mut Cursor)
    requires
        old(cur).wf(),
    ensures
        final(cur).wf(),
        final(cur).input() == old(cur).input(),
        old(cur).index() <= final(cur).index(),
        skip_end(final(cur).src(), final(cur).index() as int, false) == skip_end(
            old(cur).src(),
            old(cur).index() as int,
            false,
        ),
        final(cur).index() < final(cur).src().len() ==> !is_space(
            final(cur).src()[final(cur).index() as int],
        ),
{
    let ghost src = cur.src();
    let ghost start = cur.index();
    loop
        invariant
            cur.wf(),
            cur.input() == old(cur).input(),
            cur.src() == src,
            start <= cur.index(),
            skip_end(src, cur.index() as int, false) == skip_end(src, start as int, false),
        ensures
            cur.wf(),
            cur.input() == old(cur).input(),
            start <= cur.index(),
            skip_end(src, cur.index() as int, false) == skip_end(src, start as int, false),
            cur.index() < src.len() ==> !is_space(src[cur.index() as int]),
        decreases src.len() - cur.index(),
    {
        match cur.current() {
            Some(c) => {
                if is_white_space(c) {
                    cur.advance();
                } else {
                    break ;
                }
            },
            None => break ,
        }
    }
}

/// Pass over the rest of a line comment, through the line feed that ends it.
fn skip_line_comment(cur: &mut Cursor)
    requires
        old(cur).wf(),
        old(cur).index() < old(cur).src().len(),
    ensures
        final(cur).wf(),
        final(cur).input() == old(cur).input(),
        old(cur).index() < final(cur).index(),
        skip_end(final(cur).src(), final(cur).index() as int, false) == skip_end(
            old(cur).src(),
            old(cur).index() as int,
            true,
        ),
{
    let ghost src = cur.src();
    let ghost target = skip_end(src, cur.index() as int, true);
    let ghost start = cur.index();
    loop
        invariant_except_break
            skip_end(src, cur.index() as int, true) == target,
        invariant
            cur.wf(),
            cur.input() == old(cur).input(),
            cur.src() == src,
            start <= cur.index(),
            start < src.len(),
        ensures
            cur.wf(),
            cur.input() == old(cur).input(),
            start < cur.index(),
            skip_end(src, cur.index() as int, false) == target,
        decreases src.len() - cur.index(),
    {
        if cur.at_end() {
            break ;
        }
        let newline = match cur.current_ascii() {
            Some(c) => c == '\n',
            None => false,
        };
        cur.advance();
        if newline {
            break ;
        }
    }
}

/// Scan a single-character symbol, or the second character of a two-character
/// one, at the cursor; the token starts at `start` (character index `s`).
fn single_symbol<'src>(cur: &mut Cursor<'src>, start: usize, Ghost(s): Ghost<int>, symbol: Symbol) -> (t: Token<'src>)
    requires
        old(cur).wf(),
        0 <= s <= old(cur).index() < old(cur).src().len(),
        start == byte_offset(old(cur).src(), s),
    ensures
        final(cur).wf(),
        final(cur).input() == old(cur).input(),
        final(cur).index() == old(cur).index() + 1,
        denotes(
            final(cur).src(),
            t@,
            plain(final(cur).src(), TokenKind::Symbol(symbol), s, old(cur).index() + 1int),
        ),
{
    cur.advance();
    finish_token(cur, TokenKind::Symbol(symbol), start, Ghost(s))
}

/// Scan a symbol whose leading character, followed by `expected`, forms
/// `double`, and forms `single` otherwise.
fn maybe_double_symbol<'src>(
    cur: &mut Cursor<'src>,
    start: usize,
    Ghost(s): Ghost<int>,
    expected: char,
    single: Symbol,
    double: Symbol,
) -> (t: Token<'src>)
    requires
        old(cur).wf(),
        old(cur).index() == s < old(cur).src().len(),
        start == byte_offset(old(cur).src(), s),
        (expected as u32) < 0x80,
    ensures
        final(cur).wf(),
        final(cur).input() == old(cur).input(),
        denotes(final(cur).src(), t@, maybe_double(final(cur).src(), s, expected, single, double)),
        final(cur).index() == maybe_double(final(cur).src(), s, expected, single, double).end,
{
    cur.advance();
    let matched = match cur.current_ascii() {
        Some(c) => c == expected,
        None => false,
    };
    if matched {
        single_symbol(cur, start, Ghost(s), double)
    } else {
        finish_token(cur, TokenKind::Symbol(single), start, Ghost(s))
    }
}

/// Scan an identifier or keyword whose first character is at the cursor.
fn scan_identifier_or_keyword<'src>(cur: &mut Cursor<'src>, start: usize, Ghost(s): Ghost<int>) -> (t: Token<'src>)
    requires
        old(cur).wf(),
        old(cur).index() == s < old(cur).src().len(),
        is_ident_start(old(cur).src()[s]),
        start == byte_offset(old(cur).src(), s),
    ensures
        final(cur).wf(),
        final(cur).input() == old(cur).input(),
        scanned(final(cur).src(), Ok(t), lex_at(final(cur).src(), s), final(cur).index()),
{
    let ghost src = cur.src();
    cur.advance();
    loop
        invariant
            cur.wf(),
            cur.input() == old(cur).input(),
            cur.src() == src,
            s < cur.index() <= src.len(),
            ident_end(src, s) == ident_end(src, cur.index() as int),
        ensures
            cur.wf(),
            cur.input() == old(cur).input(),
            s < cur.index() <= src.len(),
            ident_end(src, s) == cur.index(),
        decreases src.len() - cur.index(),
    {
        let more = match cur.current_ascii() {
            Some(c) => ident_char(c),
            None => false,
        };
        if more {
            cur.advance();
        } else {
            break ;
        }
    }
    let raw = current_text(cur, start, Ghost(s));
    let kind = match keyword(raw) {
        Some(k) => TokenKind::Keyword(k),
        None => TokenKind::Identifier,
    };
    finish_token(cur, kind, start, Ghost(s))
}

/// `digits_of` grows by one character at a time.
proof fn lemma_digits_step(src: Seq<char>, s: int, i: int)
    requires
        0 <= s <= i < src.len(),
    ensures
        digits_of(src.subrange(s, i + 1)) == if src[i] == '_' {
            digits_of(src.subrange(s, i))
        } else {
            digits_of(src.subrange(s, i)).push(src[i])
        },
{
    let t = src.subrange(s, i + 1);
    assert(t.drop_last() =~= src.subrange(s, i));
    assert(t.last() == src[i]);
}

/// Scan a number literal whose first digit is at the cursor; its decoded text
/// keeps the digits and drops the separators.
fn scan_number<'src>(cur: &mut Cursor<'src>, start: usize, Ghost(s): Ghost<int>) -> (t: Token<'src>)
    requires
        old(cur).wf(),
        old(cur).index() == s < old(cur).src().len(),
        is_digit(old(cur).src()[s]),
        start == byte_offset(old(cur).src(), s),
    ensures
        final(cur).wf(),
        final(cur).input() == old(cur).input(),
        scanned(final(cur).src(), Ok(t), lex_at(final(cur).src(), s), final(cur).index()),
{
    let ghost src = cur.src();
    let mut digits = String::new();
    let mut run_start = start;
    let ghost mut run = s;
    loop
        invariant
            cur.wf(),
            cur.input() == old(cur).input(),
            cur.src() == src,
            0 <= s <= run <= cur.index() <= src.len(),
            start == byte_offset(src, s),
            run_start == byte_offset(src, run),
            number_end(src, s) == number_end(src, cur.index() as int),
            digits@ + src.subrange(run, cur.index() as int) == digits_of(
                src.subrange(s, cur.index() as int),
            ),
        ensures
            cur.wf(),
            cur.input() == old(cur).input(),
            s <= run <= cur.index() <= src.len(),
            run_start == byte_offset(src, run),
            number_end(src, s) == cur.index(),
            digits@ + src.subrange(run, cur.index() as int) == digits_of(
                src.subrange(s, cur.index() as int),
            ),
        decreases src.len() - cur.index(),
    {
        let ghost i = cur.index() as int;
        match cur.current_ascii() {
            Some(c) => {
                assert(i < src.len() && src[i] == c);
                if digit(c) {
                    proof {
                        lemma_digits_step(src, s, i);
                        assert(digits@ + src.subrange(run, i + 1) =~= (digits@ + src.subrange(
                            run,
                            i,
                        )).push(c));
                    }
                    cur.advance();
                } else if c == '_' {
                    proof {
                        lemma_digits_step(src, s, i);
                    }
                    let piece = current_text(cur, run_start, Ghost(run));
                    digits.append(piece);
                    cur.advance();
                    run_start = cur.position();
                    proof {
                        run = i + 1;
                        assert(src.subrange(run, i + 1) =~= Seq::<char>::empty());
                        assert(digits@ + src.subrange(run, i + 1) =~= digits@);
                    }
                } else {
                    break ;
                }
            },
            None => break ,
        }
    }
    let piece = current_text(cur, run_start, Ghost(run));
    digits.append(piece);
    let end = cur.position();
    let raw = current_text(cur, start, Ghost(s));
    Token { kind: TokenKind::Number, start, end, raw_text: raw, text: Cow::Owned(digits) }
}

/// `prepend` of one more character.
proof fn lemma_prepend_push(d: Seq<char>, c: Seq<char>, r: Result<(int, Seq<char>), ScanError>)
    ensures
        prepend(d, prepend(c, r)) == prepend(d + c, r),
{
    match r {
        Ok((e, t)) => {
            assert(d + (c + t) =~= (d + c) + t);
        },
        Err(_) => {},
    }
}

/// What a string literal that opened at `s` decodes to up to index `i`: the
/// borrowed body while no escape was seen, else the buffer and the run after it.
spec fn decoded_so_far(src: Seq<char>, buffer: Option<String>, s: int, run: int, i: int) -> Seq<char> {
    match buffer {
        None => src.subrange(s + 1, i),
        Some(b) => b@ + src.subrange(run, i),
    }
}

/// Scan a string literal whose opening quote is at the cursor. Its decoded text
/// borrows the source until the first escape; from there on it is built in an
/// owned buffer that starts with what was decoded before.
fn scan_string<'src>(cur: &mut Cursor<'src>, start: usize, Ghost(s): Ghost<int>) -> (r: Result<Token<'src>, ScanError>)
    requires
        old(cur).wf(),
        old(cur).index() == s < old(cur).src().len(),
        old(cur).src()[s] == '"',
        start == byte_offset(old(cur).src(), s),
    ensures
        final(cur).wf(),
        final(cur).input() == old(cur).input(),
        scanned(final(cur).src(), r, lex_at(final(cur).src(), s), final(cur).index()),
{
    let ghost src = cur.src();
    cur.advance();
    let mut buffer: Option<String> = None;
    let mut run_start = cur.position();
    let ghost mut run = s + 1;
    loop
        invariant
            cur.wf(),
            cur.input() == old(cur).input(),
            cur.src() == src,
            0 <= s,
            s + 1 <= run <= cur.index() <= src.len(),
            src[s] == '"',
            start == byte_offset(src, s),
            run_start == byte_offset(src, run),
            buffer is None ==> run == s + 1,
            string_rest(src, s + 1, s) == prepend(
                decoded_so_far(src, buffer, s, run, cur.index() as int),
                string_rest(src, cur.index() as int, s),
            ),
        decreases src.len() - cur.index(),
    {
        let ghost i = cur.index() as int;
        let ghost decoded = decoded_so_far(src, buffer, s, run, i);
        if cur.at_end() {
            return Err(ScanError::UnexpectedEndOfInputInString { offset: cur.position(), string_start: start });
        }
        let c = cur.current_ascii();
        if c == Some('"') {
            let close = cur.position();
            let body = current_text(cur, run_start, Ghost(run));
            cur.advance();
            let text = match buffer {
                None => Cow::Borrowed(body),
                Some(mut b) => {
                    b.append(body);
                    Cow::Owned(b)
                },
            };
            assert(text@ =~= decoded);
            let end = cur.position();
            let raw = current_text(cur, start, Ghost(s));
            return Ok(Token { kind: TokenKind::String, start, end, raw_text: raw, text });
        } else if c == Some('\\') {
            let backslash = cur.position();
            cur.advance();
            if cur.at_end() {
                return Err(ScanError::UnexpectedEndOfInputInEscapeSequence { offset: cur.position() });
            }
            let e = cur.current_char();
            match escape_text(e) {
                Some(esc) => {
                    let mut b = match buffer.take() {
                        None => String::new(),
                        Some(b) => b,
                    };
                    let piece = cur.slice(run_start, backslash, Ghost(run), Ghost(i));
                    b.append(piece);
                    b.append(esc);
                    proof {
                        lemma_prepend_push(decoded, seq![escape_of(e)->0], string_rest(src, i + 2, s));
                        assert(b@ =~= decoded + seq![escape_of(e)->0]);
                    }
                    cur.advance();
                    buffer = Some(b);
                    run_start = cur.position();
                    proof {
                        run = i + 2;
                        assert(b@ + src.subrange(run, i + 2) =~= b@);
                    }
                },
                None => {
                    return Err(ScanError::UnexpectedCharacterInEscapeSequence { offset: cur.position(), unexpected: e });
                },
            }
        } else {
            proof {
                lemma_prepend_push(decoded, seq![src[i]], string_rest(src, i + 1, s));
                assert(src.subrange(s + 1, i + 1) =~= src.subrange(s + 1, i) + seq![src[i]]);
                assert(src.subrange(run, i + 1) =~= src.subrange(run, i) + seq![src[i]]);
                assert(decoded_so_far(src, buffer, s, run, i + 1) =~= decoded + seq![src[i]]);
            }
            cur.advance();
        }
    }
}

/// Scan the next token: pass over whitespace and line comments, then dispatch
/// on the character that follows.
fn scan_token<'src>(cur: &mut Cursor<'src>) -> (r: Result<Token<'src>, ScanError>)
    requires
        old(cur).wf(),
    ensures
        final(cur).wf(),
        final(cur).input() == old(cur).input(),
        scanned(final(cur).src(), r, next_token(old(cur).src(), old(cur).index() as int), final(cur).index()),
{
    let ghost src = cur.src();
    let ghost target = skip_end(src, cur.index() as int, false);
    loop
        invariant
            cur.wf(),
            cur.input() == old(cur).input(),
            cur.src() == src,
            target == skip_end(old(cur).src(), old(cur).index() as int, false),
            skip_end(src, cur.index() as int, false) == target,
        decreases src.len() - cur.index(),
    {
        skip_whitespace(cur);
        let start = cur.position();
        let ghost s = cur.index() as int;
        let c = match cur.current_ascii() {
            Some(c) => c,
            None => {
                if cur.at_end() {
                    proof {
                        assert(src.subrange(s, s) =~= Seq::<char>::empty());
                    }
                    return Ok(finish_token(cur, TokenKind::Eof, start, Ghost(s)));
                }
                return Err(ScanError::UnexpectedCharacter { offset: start, unexpected: cur.current_char() });
            },
        };
        assert(src[s] == c);
        if c == '/' {
            cur.advance();
            let comment = match cur.current_ascii() {
                Some(d) => d == '/',
                None => false,
            };
            if comment {
                skip_line_comment(cur);
            } else {
                return Ok(finish_token(cur, TokenKind::Symbol(Symbol::Slash), start, Ghost(s)));
            }
        } else if ident_start(c) {
            return Ok(scan_identifier_or_keyword(cur, start, Ghost(s)));
        } else if digit(c) {
            return Ok(scan_number(cur, start, Ghost(s)));
        } else if c == ':' {
            return Ok(maybe_double_symbol(cur, start, Ghost(s), ':', Symbol::Colon, Symbol::DoubleColon));
        } else if c == '=' {
            return Ok(maybe_double_symbol(cur, start, Ghost(s), '=', Symbol::Eq, Symbol::EqEq));
        } else if c == '-' {
            return Ok(maybe_double_symbol(cur, start, Ghost(s), '>', Symbol::Minus, Symbol::Arrow));
        } else if c == ';' {
            return Ok(single_symbol(cur, start, Ghost(s), Symbol::Semicolon));
        } else if c == ',' {
            return Ok(single_symbol(cur, start, Ghost(s), Symbol::Comma));
        } else if c == '.' {
            return Ok(single_symbol(cur, start, Ghost(s), Symbol::Dot));
        } else if c == '+' {
            return Ok(single_symbol(cur, start, Ghost(s), Symbol::Plus));
        } else if c == '*' {
            return Ok(single_symbol(cur, start, Ghost(s), Symbol::Star));
        } else if c == '\\' {
            return Ok(single_symbol(cur, start, Ghost(s), Symbol::Backslash));
        } else if c == '"' {
            return scan_string(cur, start, Ghost(s));
        } else {
            return Err(ScanError::UnexpectedCharacter { offset: start, unexpected: c });
        }
    }
}

/// A scanner over one source text. It always holds a current token; each
/// `scan` replaces it with the next one.
pub struct Scanner<'src> {
    cursor: Cursor<'src>,
    token: Token<'src>,
    lexeme: Ghost<Lexeme>,
    from: Ghost<int>,
}

impl<'src> Scanner<'src> {
    /// The source text.
    pub closed spec fn input(&self) -> &'src str {
        self.cursor.input()
    }

    /// The characters of the source text.
    pub open spec fn source(&self) -> Seq<char> {
        self.input()@
    }

    /// The character index at which the next scan starts.
    pub closed spec fn offset(&self) -> nat {
        self.cursor.index()
    }

    /// The current token.
    pub closed spec fn current(&self) -> TokenView {
        self.token@
    }

    /// The lexeme that the current token stands for.
    pub closed spec fn lexeme(&self) -> Lexeme {
        self.lexeme@
    }

    /// The character index from which the current token was scanned.
    pub closed spec fn scanned_from(&self) -> int {
        self.from@
    }

    /// The current token is what the grammar yields from some index of the source.
    pub open spec fn wf(&self) -> bool {
        &&& self.inv()
        &&& next_token(self.source(), self.scanned_from()) == Ok::<Lexeme, ScanError>(self.lexeme())
        &&& denotes(self.source(), self.current(), self.lexeme())
        &&& self.offset() <= self.source().len()
    }

    pub closed spec fn inv(&self) -> bool {
        self.cursor.wf()
    }

    /// Create a scanner over `input` that holds its first token, or fail with
    /// the error that the first token gives.
    pub fn new(input: &'src str) -> (r: Result<Scanner<'src>, ScanError>)
        ensures
            match next_token(input@, 0) {
                Ok(lx) => match r {
                    Ok(sc) => {
                        &&& sc.wf()
                        &&& sc.input() == input
                        &&& sc.offset() == lx.end
                        &&& sc.lexeme() == lx
                        &&& denotes(input@, sc.current(), lx)
                    },
                    Err(_) => false,
                },
                Err(e) => r is Err && r->Err_0 == e,
            },
    {
        let mut cursor = Cursor::new(input);
        match scan_token(&mut cursor) {
            Ok(token) => {
                let ghost lx = next_token(input@, 0)->Ok_0;
                Ok(Scanner { cursor, token, lexeme: Ghost(lx), from: Ghost(0) })
            },
            Err(e) => Err(e),
        }
    }

    /// Replace the current token with the next one. On an error the current
    /// token stays as it was.
    pub fn scan(&mut self) -> (r: Result<(), ScanError>)
        requires
            old(self).wf(),
        ensures
            final(self).wf(),
            final(self).input() == old(self).input(),
            match next_token(old(self).source(), old(self).offset() as int) {
                Ok(lx) => {
                    &&& r is Ok
                    &&& final(self).offset() == lx.end
                    &&& final(self).lexeme() == lx
                    &&& denotes(final(self).source(), final(self).current(), lx)
                },
                Err(e) => {
                    &&& r == Err::<(), ScanError>(e)
                    &&& final(self).current() == old(self).current()
                    &&& final(self).lexeme() == old(self).lexeme()
                },
            },
    {
        let ghost from = self.cursor.index() as int;
        match scan_token(&mut self.cursor) {
            Ok(token) => {
                self.token = token;
                self.lexeme = Ghost(next_token(self.cursor.src(), from)->Ok_0);
                self.from = Ghost(from);
                Ok(())
            },
            Err(e) => Err(e),
        }
    }

    /// The current token. It does not change until the next `scan`.
    pub fn token(&self) -> (r: &Token<'src>)
        requires
            self.wf(),
        ensures
            r@ == self.current(),
    {
        &self.token
    }
}

} // verus!
