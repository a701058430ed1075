//! Front end of a compiler for a small Pascal/Ada-style language: a lexical
//! scanner that turns source text into tokens, and a recursive-descent parser
//! that consumes those tokens and builds a syntax tree.
use vstd::prelude::*;

pub mod tokens;
pub mod scanner;
pub mod queue;
pub mod types;
pub mod program;

use crate::tokens::{TokenError, TokenKind, marker};
use crate::scanner::{scan, scan_spec};
use crate::queue::{TokenQueue, ParserError, ParseFault, Failure, kind_name};
use crate::program::{ProgramStruct, ProgramView, program_spec};

verus! {

/// Why source text is not a program: it does not scan, or its tokens do not parse.
#[derive(Debug, PartialEq, Clone)]
pub enum FrontEndError {
    Scan(TokenError),
    Parse(ParserError),
}

/// Scans the source text and parses its tokens as one whole program.
pub fn parse_program(source: &str) -> (r: Result<ProgramStruct, FrontEndError>)
    ensures
        match scan_spec(source@) {
            Err(e) => r is Err && r->Err_0 is Scan && r->Err_0->Scan_0@ == e,
            Ok(ts) => match program_spec(ts) {
                Ok(p) => r is Ok && r->Ok_0@ == p,
                Err((e, k)) => r is Err && r->Err_0 is Parse && r->Err_0->Parse_0@ == e,
            },
        },
{
    let tokens = match scan(source) {
        Ok(tokens) => tokens,
        Err(e) => {
            return Err(FrontEndError::Scan(e));
        },
    };
    let mut queue = TokenQueue::new(tokens);
    match ProgramStruct::parse(&mut queue) {
        Ok(p) => Ok(p),
        Err(e) => Err(FrontEndError::Parse(e)),
    }
}

/// Empty source text scans to `EOF` alone, and that is no program: the
/// parser names `program` as what it expected.
pub proof fn empty_source_rejected()
    ensures
        scan_spec(Seq::empty()) == Ok::<Seq<(TokenKind, Seq<char>)>, crate::tokens::TokenFault>(
            seq![marker(TokenKind::EOF)],
        ),
        program_spec(seq![marker(TokenKind::EOF)]) == Err::<ProgramView, Failure>(
            (ParseFault::UnexpectedToken(kind_name(TokenKind::Program), marker(TokenKind::EOF)), 1),
        ),
{
}

} // verus!
