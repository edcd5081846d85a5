//! Lexical scanner for a small expression and declaration language, with a
//! parser for its simplest programs.
use vstd::prelude::*;

pub mod cursor;
pub mod error;
pub mod grammar;
pub mod lemmas;
pub mod offsets;
pub mod parser;
pub mod scanner;
pub mod token;

verus! {

} // verus!
