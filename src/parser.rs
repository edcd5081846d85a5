//! A parser for programs of the form `name :: Type; name = number;`.
use vstd::prelude::*;
use crate::grammar::next_token;
use crate::scanner::{ScanError, Scanner};
use crate::token::{Symbol, TokenKind};

verus! {

/// Why parsing failed.
#[derive(Debug, PartialEq, Eq, Structural, Clone, Copy)]
pub enum ParseError {
    ScanError(ScanError),
    Unexpected { expected: TokenKind, found: TokenKind },
}

impl From<ScanError> for ParseError {
    fn from(err: ScanError) -> Self {
        ParseError::ScanError(err)
    }
}

impl vstd::std_specs::convert::FromSpecImpl<ScanError> for ParseError {
    open spec fn obeys_from_spec() -> bool {
        true
    }

    open spec fn from_spec(v: ScanError) -> Self {
        ParseError::ScanError(v)
    }
}

/// The kinds of the tokens of a program, in order.
pub open spec fn program_kinds() -> Seq<TokenKind> {
    seq![
        TokenKind::Identifier,
        TokenKind::Symbol(Symbol::DoubleColon),
        TokenKind::Identifier,
        TokenKind::Symbol(Symbol::Semicolon),
        TokenKind::Identifier,
        TokenKind::Symbol(Symbol::Eq),
        TokenKind::Number,
        TokenKind::Symbol(Symbol::Semicolon),
        TokenKind::Eof,
    ]
}

/// The outcome of accepting tokens of the kinds `kinds` in turn, when the
/// current token has kind `current` and the next scan starts at `offset`.
pub open spec fn accept_all(src: Seq<char>, current: TokenKind, offset: int, kinds: Seq<TokenKind>) -> Result<(), ParseError>
    decreases kinds.len(),
{
    if kinds.len() == 0 {
        Ok(())
    } else if current != kinds[0] {
        Err(ParseError::Unexpected { expected: kinds[0], found: current })
    } else {
        match next_token(src, offset) {
            Ok(lx) => accept_all(src, lx.kind, lx.end, kinds.drop_first()),
            Err(e) => Err(ParseError::ScanError(e)),
        }
    }
}

pub struct Parser<'src> {
    scanner: Scanner<'src>,
}

impl<'src> Parser<'src> {
    /// The scanner the parser reads from.
    pub closed spec fn scanner(&self) -> Scanner<'src> {
        self.scanner
    }

    pub open spec fn wf(&self) -> bool {
        self.scanner().wf()
    }

    /// Create a parser over `input`, holding the first token of it.
    pub fn new(input: &'src str) -> (r: Result<Parser<'src>, ParseError>)
        ensures
            match next_token(input@, 0) {
                Ok(lx) => match r {
                    Ok(p) => {
                        &&& p.wf()
                        &&& p.scanner().input() == input
                        &&& p.scanner().offset() == lx.end
                        &&& p.scanner().current().kind == lx.kind
                    },
                    Err(_) => false,
                },
                Err(e) => r is Err && r->Err_0 == ParseError::ScanError(e),
            },
    {
        match Scanner::new(input) {
            Ok(scanner) => Ok(Parser { scanner }),
            Err(e) => Err(ParseError::from(e)),
        }
    }

    /// Move past the current token if it has kind `kind`; fail otherwise.
    fn accept(&mut self, kind: TokenKind) -> (r: Result<(), ParseError>)
        requires
            old(self).wf(),
        ensures
            final(self).wf(),
            final(self).scanner().input() == old(self).scanner().input(),
            old(self).scanner().current().kind != kind ==> r == Err::<(), ParseError>(
                ParseError::Unexpected { expected: kind, found: old(self).scanner().current().kind },
            ),
            old(self).scanner().current().kind == kind ==> match next_token(
                old(self).scanner().source(),
                old(self).scanner().offset() as int,
            ) {
                Ok(lx) => {
                    &&& r is Ok
                    &&& final(self).scanner().offset() == lx.end
                    &&& final(self).scanner().current().kind == lx.kind
                },
                Err(e) => r == Err::<(), ParseError>(ParseError::ScanError(e)),
            },
    {
        let found = self.scanner.token().kind();
        if found == kind {
            match self.scanner.scan() {
                Ok(()) => Ok(()),
                Err(e) => Err(ParseError::ScanError(e)),
            }
        } else {
            Err(ParseError::Unexpected { expected: kind, found })
        }
    }

    /// Parse a whole program: a name, `::`, a type name, `;`, the name again
    /// in its definition `= number;`, then the end of the input.
    pub fn parse_program(&mut self) -> (r: Result<(), ParseError>)
        requires
            old(self).wf(),
        ensures
            final(self).wf(),
            r == accept_all(
                old(self).scanner().source(),
                old(self).scanner().current().kind,
                old(self).scanner().offset() as int,
                program_kinds(),
            ),
    {
        let kinds: [TokenKind; 9] = [
            TokenKind::Identifier,
            TokenKind::Symbol(Symbol::DoubleColon),
            TokenKind::Identifier,
            TokenKind::Symbol(Symbol::Semicolon),
            TokenKind::Identifier,
            TokenKind::Symbol(Symbol::Eq),
            TokenKind::Number,
            TokenKind::Symbol(Symbol::Semicolon),
            TokenKind::Eof,
        ];
        assert(kinds@ =~= program_kinds());
        assert(program_kinds().skip(0) =~= program_kinds());
        let ghost src = self.scanner().source();
        let ghost whole = accept_all(
            src,
            self.scanner().current().kind,
            self.scanner().offset() as int,
            program_kinds(),
        );
        let mut i: usize = 0;
        while i < 9
            invariant
                self.wf(),
                self.scanner().input() == old(self).scanner().input(),
                src == self.scanner().source(),
                whole == accept_all(src, old(self).scanner().current().kind, old(self).scanner().offset() as int, program_kinds()),
                0 <= i <= 9,
                kinds@ == program_kinds(),
                whole == accept_all(
                    src,
                    self.scanner().current().kind,
                    self.scanner().offset() as int,
                    program_kinds().skip(i as int),
                ),
            decreases 9 - i,
        {
            proof {
                assert(program_kinds().skip(i as int).drop_first() =~= program_kinds().skip(i + 1));
            }
            match self.accept(kinds[i]) {
                Ok(()) => {},
                Err(e) => {
                    return Err(e);
                },
            }
            i = i + 1;
        }
        assert(program_kinds().skip(9) =~= Seq::<TokenKind>::empty());
        Ok(())
    }
}

} // verus!
