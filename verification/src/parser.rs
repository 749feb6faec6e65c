//! The parse driver: from schema text to a program or an error.

use crate::ast::{ProgramView, TLProgram};
use crate::grammar;
use crate::grammar::Parsed;
use crate::lexer::{lex, TLToken, TokenView};
use crate::lexical::tokens_of;
use crate::rules::program::parse_program;
use crate::rules::TLParseError;
use vstd::prelude::*;

verus! {

/// Why a schema was refused.
#[derive(Debug, Clone, Copy, PartialEq, Eq, Structural)]
pub enum TLError {
    /// A rule of the grammar had committed and then met something invalid
    /// at this token.
    Grammar { position: usize },
    /// A program was read, but it ends before this token: the tokens from
    /// here on belong to no declaration.
    TrailingInput { position: usize },
}

/// What the tokens `s` are as a whole program.
///
/// The program rule runs once from the first token. Its value counts only
/// where it used every token; where tokens remain, the result is the
/// position of the first of them.
pub open spec fn parse(s: Seq<TokenView>) -> Result<ProgramView, TLError> {
    match grammar::parse_program(s, 0) {
        Parsed::Done { used, value } => if used == s.len() {
            Ok(value)
        } else {
            Err(TLError::TrailingInput { position: used as usize })
        },
        Parsed::Mismatch { at } => Err(TLError::Grammar { position: at as usize }),
        Parsed::Failure { at } => Err(TLError::Grammar { position: at as usize }),
    }
}

/// Reads the schema text `tl`.
///
/// The text is cut into tokens and the program rule runs once over them.
/// The result is the program where the rule used every token, and an error
/// otherwise: nothing of a schema that is refused is returned.
pub fn parse_tl(tl: &str) -> (r: Result<TLProgram, TLError>)
    ensures
        match parse(tokens_of(tl@)) {
            Ok(program) => r is Ok && r->Ok_0@ == program,
            Err(e) => r == Err::<TLProgram, TLError>(e),
        },
{
    let mut result: Vec<TLToken> = Vec::new();
    let count: usize;
    let parse_result = {
        let tokens = lex(tl, &mut result);
        assert(tokens.stream() =~= tokens_of(tl@)) by {
            assert(tokens@ =~= Seq::empty() + tokens_of(tl@));
        }
        count = tokens.end;
        parse_program(tokens)
    };
    match parse_result {
        Ok((tokens, program)) => {
            if tokens.start != count {
                Err(TLError::TrailingInput { position: tokens.start })
            } else {
                Ok(program)
            }
        },
        Err(TLParseError::Mismatch { position }) => Err(TLError::Grammar { position }),
        Err(TLParseError::Failure { position }) => Err(TLError::Grammar { position }),
    }
}

} // verus!
