//! The rules for blocks and whole programs.

use crate::ast::{DeclarationBlockView, TLDeclarationBlock, TLProgram};
use crate::grammar;
use crate::grammar::{prepend, Parsed};
use crate::lexer::{TLTokenEnum, Tokens};
use crate::rules::declarations::many0_declaration;
use crate::rules::{lemma_prepend_twice, tag, yields, TLParseError, TLParser};
use vstd::prelude::*;

verus! {

/// An explicit block: `---`, the word `Functions` or `Types`, `---`, and
/// zero or more declarations.
fn parse_block<'a>(input: Tokens<'a>) -> (r: TLParser<'a, TLDeclarationBlock>)
    ensures
        yields(r, input, grammar::parse_block(input.stream(), input.start as nat)),
{
    if tag(input, TLTokenEnum::SEPARATOR).is_none() {
        return Err(TLParseError::Mismatch { position: input.start });
    }
    let rest = input.advance();
    let functions = tag(rest, TLTokenEnum::FUNCTIONS).is_some();
    if !functions && tag(rest, TLTokenEnum::TYPES).is_none() {
        return Err(TLParseError::Mismatch { position: rest.start });
    }
    let rest = rest.advance();
    if tag(rest, TLTokenEnum::SEPARATOR).is_none() {
        return Err(TLParseError::Mismatch { position: rest.start });
    }
    let (rest, decls) = match many0_declaration(rest.advance()) {
        Ok(found) => found,
        Err(e) => {
            return Err(e);
        },
    };
    let block = if functions {
        TLDeclarationBlock::Functions(decls)
    } else {
        TLDeclarationBlock::Types(decls)
    };
    Ok((rest, block))
}

/// Zero or more explicit blocks.
#[verifier::rlimit(40)]
fn many0_block<'a>(input: Tokens<'a>) -> (r: TLParser<'a, Vec<TLDeclarationBlock>>)
    ensures
        yields(r, input, grammar::many0_block(input.stream(), input.start as nat)),
{
    let ghost s = input.stream();
    let ghost p = input.start as nat;
    let mut blocks: Vec<TLDeclarationBlock> = Vec::new();
    let mut cur = input;
    proof {
        assert(blocks.deep_view() =~= Seq::empty());
        match grammar::many0_block(s, p) {
            Parsed::Done { used, value } => {
                assert(Seq::<DeclarationBlockView>::empty() + value =~= value);
            },
            _ => {},
        }
    }
    loop
        invariant
            s == input.stream(),
            p == input.start,
            cur.tok == input.tok,
            cur.end == input.end,
            cur.start >= input.start,
            grammar::many0_block(s, p) == prepend(
                blocks.deep_view(),
                (cur.start - input.start) as nat,
                grammar::many0_block(s, cur.start as nat),
            ),
        decreases grammar::left(s, cur.start as nat),
    {
        if cur.first().is_none() {
            assert(blocks.deep_view() + Seq::empty() =~= blocks.deep_view());
            return Ok((cur, blocks));
        }
        match parse_block(cur) {
            Ok((rest, block)) => {
                if rest.start == cur.start {
                    return Err(TLParseError::Mismatch { position: cur.start });
                }
                proof {
                    lemma_prepend_twice(
                        blocks.deep_view(),
                        (cur.start - input.start) as nat,
                        block@,
                        (rest.start - cur.start) as nat,
                        grammar::many0_block(s, rest.start as nat),
                    );
                }
                let ghost before = blocks.deep_view();
                blocks.push(block);
                assert(blocks.deep_view() =~= before.push(block@));
                cur = rest;
            },
            Err(TLParseError::Mismatch { position }) => {
                assert(blocks.deep_view() + Seq::empty() =~= blocks.deep_view());
                return Ok((cur, blocks));
            },
            Err(e) => {
                return Err(e);
            },
        }
    }
}

/// A program: the declarations before the first separator, which form a
/// block of types even where there are none, then the explicit blocks.
pub fn parse_program<'a>(input: Tokens<'a>) -> (r: TLParser<'a, TLProgram>)
    ensures
        yields(r, input, grammar::parse_program(input.stream(), input.start as nat)),
{
    let (rest, type_declarations) = match many0_declaration(input) {
        Ok(found) => found,
        Err(e) => {
            return Err(e);
        },
    };
    let (rest, mut blocks) = match many0_block(rest) {
        Ok(found) => found,
        Err(e) => {
            return Err(e);
        },
    };
    let leading = TLDeclarationBlock::Types(type_declarations);
    let mut all_blocks = vec![leading];
    let ghost tail = blocks.deep_view();
    all_blocks.append(&mut blocks);
    assert(all_blocks.deep_view() =~= seq![leading@] + tail);
    Ok((rest, TLProgram { blocks: all_blocks }))
}

} // verus!
