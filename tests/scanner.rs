use lexer::scanner::{ScanError, Scanner};
use lexer::token::{Keyword, Symbol, Token, TokenKind};

fn run(input: &str) -> Result<Vec<Token<'_>>, ScanError> {
    let mut scanner = Scanner::new(input)?;
    let mut output = Vec::new();
    loop {
        output.push(scanner.token().clone());
        if scanner.token().kind() == TokenKind::Eof {
            break;
        }
        scanner.scan()?;
    }
    Ok(output)
}

#[test]
fn whitespace() {
    let ts = run("\t\n\rx").expect("scanning example input");
    assert_eq!(ts[0].kind(), TokenKind::Identifier);
    assert_eq!(ts[0].text(), "x");
    assert_eq!(ts[0].raw_text(), "x");
    assert_eq!(ts[0].start(), 3);
    assert_eq!(ts[0].end(), 4);

    assert_eq!(ts[1].kind(), TokenKind::Eof);
    assert_eq!(ts[1].text(), "");
    assert_eq!(ts[1].raw_text(), "");
    assert_eq!(ts[1].start(), 4);
    assert_eq!(ts[1].end(), 4);
}

#[test]
fn numbers() {
    let ts = run("1").expect("scanning example input");
    assert_eq!(ts[0].kind(), TokenKind::Number);
    assert_eq!(ts[0].text(), "1");
    assert_eq!(ts[0].raw_text(), "1");
    assert_eq!(ts[0].start(), 0);
    assert_eq!(ts[0].end(), 1);

    let ts = run("1000").expect("scanning example input");
    assert_eq!(ts[0].kind(), TokenKind::Number);
    assert_eq!(ts[0].text(), "1000");
    assert_eq!(ts[0].raw_text(), "1000");
    assert_eq!(ts[0].start(), 0);
    assert_eq!(ts[0].end(), 4);

    let ts = run("9999").expect("scanning example input");
    assert_eq!(ts[0].kind(), TokenKind::Number);
    assert_eq!(ts[0].text(), "9999");
    assert_eq!(ts[0].raw_text(), "9999");

    let ts = run("1_000").expect("scanning example input");
    assert_eq!(ts[0].kind(), TokenKind::Number);
    assert_eq!(ts[0].text(), "1000");
    assert_eq!(ts[0].raw_text(), "1_000");
    assert_eq!(ts[0].start(), 0);
    assert_eq!(ts[0].end(), 5);

    let ts = run("1_000_000_000_000_000").expect("scanning example input");
    assert_eq!(ts[0].kind(), TokenKind::Number);
    assert_eq!(ts[0].text(), "1000000000000000");
    assert_eq!(ts[0].raw_text(), "1_000_000_000_000_000");

    // Ensure number is parsed correctly if not at end of input.
    let ts = run("1_000  x").expect("scanning example input");
    assert_eq!(ts[0].kind(), TokenKind::Number);
    assert_eq!(ts[0].text(), "1000");
    assert_eq!(ts[0].raw_text(), "1_000");
    assert_eq!(ts[0].start(), 0);
    assert_eq!(ts[0].end(), 5);
}

#[test]
fn identifiers() {
    let ts = run("a").expect("scanning example input");
    assert_eq!(ts[0].kind(), TokenKind::Identifier);
    assert_eq!(ts[0].text(), "a");
    assert_eq!(ts[0].raw_text(), "a");
    assert_eq!(ts[0].start(), 0);
    assert_eq!(ts[0].end(), 1);

    let ts = run("abc").expect("scanning example input");
    assert_eq!(ts[0].kind(), TokenKind::Identifier);
    assert_eq!(ts[0].text(), "abc");
    assert_eq!(ts[0].raw_text(), "abc");

    let ts = run("_").expect("scanning example input");
    assert_eq!(ts[0].kind(), TokenKind::Identifier);
    assert_eq!(ts[0].text(), "_");
    assert_eq!(ts[0].raw_text(), "_");

    let ts = run("a_1").expect("scanning example input");
    assert_eq!(ts[0].kind(), TokenKind::Identifier);
    assert_eq!(ts[0].text(), "a_1");
    assert_eq!(ts[0].raw_text(), "a_1");

    let ts = run("_1").expect("scanning example input");
    assert_eq!(ts[0].kind(), TokenKind::Identifier);
    assert_eq!(ts[0].text(), "_1");
    assert_eq!(ts[0].raw_text(), "_1");

    let ts = run("asdfadsdflHJLHLadfJHJH__AS777SDHJ456789LH_1").expect("scanning example input");
    assert_eq!(ts[0].kind(), TokenKind::Identifier);
    assert_eq!(ts[0].text(), "asdfadsdflHJLHLadfJHJH__AS777SDHJ456789LH_1");
    assert_eq!(ts[0].raw_text(), "asdfadsdflHJLHLadfJHJH__AS777SDHJ456789LH_1");
    assert_eq!(ts[0].start(), 0);
    assert_eq!(ts[0].end(), 43);

    // Ensure correct scanning if not at end of input.
    let ts = run("a_1 x").expect("scanning example input");
    assert_eq!(ts[0].kind(), TokenKind::Identifier);
    assert_eq!(ts[0].text(), "a_1");
    assert_eq!(ts[0].raw_text(), "a_1");
}

#[test]
fn symbols() {
    let ts = run("; :: : = == , \\").expect("scanning example input");
    assert_eq!(ts[0].kind(), TokenKind::Symbol(Symbol::Semicolon));
    assert_eq!(ts[0].text(), ";");
    assert_eq!(ts[0].raw_text(), ";");
    assert_eq!(ts[0].start(), 0);
    assert_eq!(ts[0].end(), 1);

    assert_eq!(ts[1].kind(), TokenKind::Symbol(Symbol::DoubleColon));
    assert_eq!(ts[1].text(), "::");
    assert_eq!(ts[1].raw_text(), "::");
    assert_eq!(ts[1].start(), 2);
    assert_eq!(ts[1].end(), 4);

    assert_eq!(ts[2].kind(), TokenKind::Symbol(Symbol::Colon));
    assert_eq!(ts[2].text(), ":");
    assert_eq!(ts[2].raw_text(), ":");
    assert_eq!(ts[2].start(), 5);
    assert_eq!(ts[2].end(), 6);

    assert_eq!(ts[3].kind(), TokenKind::Symbol(Symbol::Eq));
    assert_eq!(ts[3].text(), "=");
    assert_eq!(ts[3].raw_text(), "=");
    assert_eq!(ts[3].start(), 7);
    assert_eq!(ts[3].end(), 8);

    assert_eq!(ts[4].kind(), TokenKind::Symbol(Symbol::EqEq));
    assert_eq!(ts[5].kind(), TokenKind::Symbol(Symbol::Comma));
    assert_eq!(ts[6].kind(), TokenKind::Symbol(Symbol::Backslash));
}

#[test]
fn keywords() {
    let ts = run("if end else fun ifthen funny").expect("scanning example input");
    assert_eq!(ts[0].kind(), TokenKind::Keyword(Keyword::If));
    assert_eq!(ts[0].text(), "if");
    assert_eq!(ts[0].raw_text(), "if");
    assert_eq!(ts[0].start(), 0);
    assert_eq!(ts[0].end(), 2);

    assert_eq!(ts[1].kind(), TokenKind::Keyword(Keyword::End));
    assert_eq!(ts[1].text(), "end");
    assert_eq!(ts[1].raw_text(), "end");
    assert_eq!(ts[1].start(), 3);
    assert_eq!(ts[1].end(), 6);

    assert_eq!(ts[2].kind(), TokenKind::Keyword(Keyword::Else));
    assert_eq!(ts[2].text(), "else");
    assert_eq!(ts[2].raw_text(), "else");
    assert_eq!(ts[2].start(), 7);
    assert_eq!(ts[2].end(), 11);

    assert_eq!(ts[3].kind(), TokenKind::Keyword(Keyword::Fun));
    assert_eq!(ts[3].text(), "fun");
    assert_eq!(ts[3].raw_text(), "fun");
    assert_eq!(ts[3].start(), 12);
    assert_eq!(ts[3].end(), 15);

    assert_eq!(ts[4].kind(), TokenKind::Identifier);
    assert_eq!(ts[4].text(), "ifthen");
    assert_eq!(ts[4].raw_text(), "ifthen");
    assert_eq!(ts[4].start(), 16);
    assert_eq!(ts[4].end(), 22);

    assert_eq!(ts[5].kind(), TokenKind::Identifier);
    assert_eq!(ts[5].text(), "funny");
    assert_eq!(ts[5].raw_text(), "funny");
    assert_eq!(ts[5].start(), 23);
    assert_eq!(ts[5].end(), 28);
}

#[test]
fn strings() {
    let ts = run(r###""hello" "" "\r" "\\""###).expect("scanning example input");
    assert_eq!(ts[0].kind(), TokenKind::String);
    assert_eq!(ts[0].text(), "hello");
    assert_eq!(ts[0].raw_text(), "\"hello\"");
    assert_eq!(ts[0].start(), 0);
    assert_eq!(ts[0].end(), 7);

    assert_eq!(ts[1].kind(), TokenKind::String);
    assert_eq!(ts[1].text(), "");
    assert_eq!(ts[1].raw_text(), "\"\"");
    assert_eq!(ts[1].start(), 8);
    assert_eq!(ts[1].end(), 10);

    assert_eq!(ts[2].kind(), TokenKind::String);
    assert_eq!(ts[2].text(), "\r");
    assert_eq!(ts[2].raw_text(), "\"\\r\"");
    assert_eq!(ts[2].start(), 11);
    assert_eq!(ts[2].end(), 15);

    assert_eq!(ts[3].kind(), TokenKind::String);
    assert_eq!(ts[3].text(), "\\");
    assert_eq!(ts[3].raw_text(), "\"\\\\\"");
    assert_eq!(ts[3].start(), 16);
    assert_eq!(ts[3].end(), 20);
}

#[test]
fn strings_errors() {
    let e = run(r#"""#).expect_err("should fail");
    assert!(matches!(e, ScanError::UnexpectedEndOfInputInString { string_start: 0, offset: 1 }));
    let e = run(r#""H\ello""#).expect_err("should fail");
    assert!(matches!(e, ScanError::UnexpectedCharacterInEscapeSequence { offset: 3, unexpected: 'e' }));
    let e = run(r#""H\"#).expect_err("should fail");
    assert!(matches!(e, ScanError::UnexpectedEndOfInputInEscapeSequence { offset: 3 }));
}

#[test]
fn comments() {
    let ts = run(r###"hello
        // line comment
        world
        // another one at the end (no newline)"###)
    .expect("scanning example input");

    assert_eq!(ts[0].kind(), TokenKind::Identifier);
    assert_eq!(ts[0].text(), "hello");
    assert_eq!(ts[0].raw_text(), "hello");
    assert_eq!(ts[0].start(), 0);
    assert_eq!(ts[0].end(), 5);

    assert_eq!(ts[1].kind(), TokenKind::Identifier);
    assert_eq!(ts[1].text(), "world");
    assert_eq!(ts[1].raw_text(), "world");
    assert_eq!(ts[1].start(), 38);
    assert_eq!(ts[1].end(), 43);
}
