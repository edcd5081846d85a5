use lexer::error::Error;
use lexer::parser::{ParseError, Parser};
use lexer::scanner::{ScanError, Scanner};
use lexer::token::{Keyword, Symbol, Token, TokenKind};

fn tokens(input: &str) -> Result<Vec<Token<'_>>, ScanError> {
    let mut scanner = Scanner::new(input)?;
    let mut output = Vec::new();
    loop {
        output.push(scanner.token().clone());
        if scanner.token().kind() == TokenKind::Eof {
            break;
        }
        scanner.scan()?;
    }
    Ok(output)
}

#[test]
fn raw_text_is_the_source_span() {
    let input = "main :: Integer; main = 1_0; \"a\\tb\" // done\n x->y/z";
    let ts = tokens(input).expect("scans");
    for t in &ts {
        assert_eq!(t.raw_text(), &input[t.start()..t.end()]);
    }
    assert_eq!(ts.len(), 15);
}

#[test]
fn raw_text_spans_count_bytes_of_wide_characters() {
    let input = "\"é€😀\" x";
    let ts = tokens(input).expect("scans");
    assert_eq!(ts[0].kind(), TokenKind::String);
    assert_eq!(ts[0].start(), 0);
    assert_eq!(ts[0].end(), 11);
    assert_eq!(ts[0].raw_text(), "\"é€😀\"");
    assert_eq!(ts[0].text(), "é€😀");
    assert_eq!(ts[1].start(), 12);
    assert_eq!(ts[2].kind(), TokenKind::Eof);
    assert_eq!(ts[2].start(), 13);
    assert_eq!(ts[2].end(), 13);
}

#[test]
fn number_text_drops_separators() {
    let ts = tokens("1__2_3_ 7").expect("scans");
    assert_eq!(ts[0].kind(), TokenKind::Number);
    assert_eq!(ts[0].raw_text(), "1__2_3_");
    assert_eq!(ts[0].text(), "123");
    assert!(ts[0].text().chars().all(|c| c.is_ascii_digit()));
    assert_eq!(ts[1].text(), "7");
}

#[test]
fn plain_string_text_strips_quotes() {
    let ts = tokens("\"a b c\"").expect("scans");
    let raw = ts[0].raw_text();
    assert_eq!(ts[0].text(), &raw[1..raw.len() - 1]);
}

#[test]
fn escaped_string_text_is_decoded() {
    let ts = tokens(r#""ab\ncd\"\'\t\\x""#).expect("scans");
    assert_eq!(ts[0].kind(), TokenKind::String);
    assert_eq!(ts[0].text(), "ab\ncd\"'\t\\x");
}

#[test]
fn whitespace_and_comments_yield_no_token() {
    let ts = tokens("  // c\n  x").expect("scans");
    assert_eq!(ts.len(), 2);
    assert_eq!(ts[0].kind(), TokenKind::Identifier);
    assert_eq!(ts[0].text(), "x");
    assert_eq!(ts[1].kind(), TokenKind::Eof);

    let ts = tokens("   // c\n   // d\n x").expect("scans");
    assert_eq!(ts.len(), 2);
    assert_eq!(ts[0].text(), "x");
}

#[test]
fn unicode_whitespace_is_skipped() {
    let ts = tokens("\u{a0}x\u{2003}").expect("scans");
    assert_eq!(ts[0].kind(), TokenKind::Identifier);
    assert_eq!(ts[0].start(), 2);
    assert_eq!(ts[0].end(), 3);
    assert_eq!(ts[1].kind(), TokenKind::Eof);
    assert_eq!(ts[1].start(), 6);
}

#[test]
fn maximal_munch_symbols() {
    let ts = tokens(":: : = == , \\").expect("scans");
    let expected = [
        (TokenKind::Symbol(Symbol::DoubleColon), 0, 2),
        (TokenKind::Symbol(Symbol::Colon), 3, 4),
        (TokenKind::Symbol(Symbol::Eq), 5, 6),
        (TokenKind::Symbol(Symbol::EqEq), 7, 9),
        (TokenKind::Symbol(Symbol::Comma), 10, 11),
        (TokenKind::Symbol(Symbol::Backslash), 12, 13),
        (TokenKind::Eof, 13, 13),
    ];
    assert_eq!(ts.len(), expected.len());
    for (t, (kind, start, end)) in ts.iter().zip(expected.iter()) {
        assert_eq!(t.kind(), *kind);
        assert_eq!(t.start(), *start);
        assert_eq!(t.end(), *end);
    }
}

#[test]
fn other_symbols() {
    let ts = tokens("->-.+*/;").expect("scans");
    let kinds: Vec<TokenKind> = ts.iter().map(|t| t.kind()).collect();
    assert_eq!(
        kinds,
        vec![
            TokenKind::Symbol(Symbol::Arrow),
            TokenKind::Symbol(Symbol::Minus),
            TokenKind::Symbol(Symbol::Dot),
            TokenKind::Symbol(Symbol::Plus),
            TokenKind::Symbol(Symbol::Star),
            TokenKind::Symbol(Symbol::Slash),
            TokenKind::Symbol(Symbol::Semicolon),
            TokenKind::Eof,
        ]
    );
}

#[test]
fn keyword_needs_whole_identifier() {
    let ts = tokens("if ifthen").expect("scans");
    assert_eq!(ts[0].kind(), TokenKind::Keyword(Keyword::If));
    assert_eq!(ts[1].kind(), TokenKind::Identifier);
    assert_eq!(ts[1].text(), "ifthen");
}

#[test]
fn separated_number_scenario() {
    let ts = tokens("1_000").expect("scans");
    assert_eq!(ts.len(), 2);
    assert_eq!(ts[0].kind(), TokenKind::Number);
    assert_eq!(ts[0].raw_text(), "1_000");
    assert_eq!(ts[0].text(), "1000");
    assert_eq!((ts[0].start(), ts[0].end()), (0, 5));
}

#[test]
fn bad_escape_reports_its_character() {
    let e = tokens("\"H\\ello\"").expect_err("fails");
    assert_eq!(e, ScanError::UnexpectedCharacterInEscapeSequence { offset: 3, unexpected: 'e' });
}

#[test]
fn unterminated_string_reports_its_start() {
    let e = tokens("\"").expect_err("fails");
    assert_eq!(e, ScanError::UnexpectedEndOfInputInString { offset: 1, string_start: 0 });
    let e = tokens("x \"abc").expect_err("fails");
    assert_eq!(e, ScanError::UnexpectedEndOfInputInString { offset: 6, string_start: 2 });
}

#[test]
fn backslash_at_end_of_input() {
    let e = tokens("\"ab\\").expect_err("fails");
    assert_eq!(e, ScanError::UnexpectedEndOfInputInEscapeSequence { offset: 4 });
}

#[test]
fn unexpected_character() {
    let e = Scanner::new("#").err().expect("fails");
    assert_eq!(e, ScanError::UnexpectedCharacter { offset: 0, unexpected: '#' });
    let e = tokens("a é").expect_err("fails");
    assert_eq!(e, ScanError::UnexpectedCharacter { offset: 2, unexpected: 'é' });
}

#[test]
fn failed_scan_keeps_the_current_token() {
    let mut scanner = Scanner::new("abc $").expect("scans");
    assert!(scanner.scan().is_err());
    assert_eq!(scanner.token().kind(), TokenKind::Identifier);
    assert_eq!(scanner.token().text(), "abc");
    assert_eq!((scanner.token().start(), scanner.token().end()), (0, 3));
}

#[test]
fn current_token_is_stable() {
    let scanner = Scanner::new("  foo bar").expect("scans");
    let a = scanner.token().clone();
    let b = scanner.token().clone();
    assert_eq!(a.kind(), b.kind());
    assert_eq!(a.start(), b.start());
    assert_eq!(a.end(), b.end());
    assert_eq!(a.raw_text(), b.raw_text());
    assert_eq!(a.text(), b.text());
}

#[test]
fn eof_is_terminal() {
    let mut scanner = Scanner::new("x ").expect("scans");
    scanner.scan().expect("scans");
    assert_eq!(scanner.token().kind(), TokenKind::Eof);
    assert_eq!((scanner.token().start(), scanner.token().end()), (2, 2));
    scanner.scan().expect("scans again");
    assert_eq!(scanner.token().kind(), TokenKind::Eof);
    assert_eq!((scanner.token().start(), scanner.token().end()), (2, 2));
}

#[test]
fn empty_input_is_eof_at_zero() {
    let ts = tokens("").expect("scans");
    assert_eq!(ts.len(), 1);
    assert_eq!(ts[0].kind(), TokenKind::Eof);
    assert_eq!((ts[0].start(), ts[0].end()), (0, 0));
    assert_eq!(ts[0].raw_text(), "");
}

#[test]
fn fresh_token_is_empty() {
    let t = Token::new(TokenKind::Identifier);
    assert_eq!(t.kind(), TokenKind::Identifier);
    assert_eq!((t.start(), t.end()), (0, 0));
    assert_eq!(t.text(), "");
    assert_eq!(t.raw_text(), "");
}

#[test]
fn parses_a_program() {
    let mut parser = Parser::new("main :: Integer; main = 2;").expect("scans");
    assert_eq!(parser.parse_program(), Ok(()));
}

#[test]
fn parse_reports_unexpected_token() {
    let mut parser = Parser::new("main : Integer; main = 2;").expect("scans");
    assert_eq!(
        parser.parse_program(),
        Err(ParseError::Unexpected {
            expected: TokenKind::Symbol(Symbol::DoubleColon),
            found: TokenKind::Symbol(Symbol::Colon),
        })
    );
    let mut parser = Parser::new("main :: Integer; main = 2; x").expect("scans");
    assert_eq!(
        parser.parse_program(),
        Err(ParseError::Unexpected { expected: TokenKind::Eof, found: TokenKind::Identifier })
    );
}

#[test]
fn parse_reports_scan_errors() {
    let e = Parser::new("?").err().expect("fails");
    assert_eq!(e, ParseError::ScanError(ScanError::UnexpectedCharacter { offset: 0, unexpected: '?' }));
    let mut parser = Parser::new("main :: \"x").expect("scans");
    assert_eq!(
        parser.parse_program(),
        Err(ParseError::ScanError(ScanError::UnexpectedEndOfInputInString { offset: 10, string_start: 8 }))
    );
}

#[test]
fn errors_convert_into_the_crate_error() {
    let e: Error = ScanError::UnexpectedEndOfInputInEscapeSequence { offset: 1 }.into();
    assert!(matches!(e, Error::Scan(ScanError::UnexpectedEndOfInputInEscapeSequence { offset: 1 })));
    let e: Error = ParseError::Unexpected { expected: TokenKind::Eof, found: TokenKind::Number }.into();
    assert!(matches!(e, Error::Parse(ParseError::Unexpected { .. })));
    let e: Error = String::from("boom").into();
    assert!(matches!(e, Error::Other(ref s) if s == "boom"));
}
